use iai_callgrind_runner::api::EventKind;
use iai_callgrind_runner::runner::cachegrind::summary_parser::{
    CachegrindSummaryError, SummaryParser as CachegrindSummaryParser,
};
use iai_callgrind_runner::runner::callgrind::flamegraph_parser::FlamegraphMap;
use iai_callgrind_runner::runner::callgrind::hashmap_parser::HashMapParser;
use iai_callgrind_runner::runner::callgrind::output::{
    CallgrindOutput, PositionsMode, Sentinel as RecordSentinel,
};
use iai_callgrind_runner::runner::callgrind::parser::{parse_header, HeaderError, Sentinel};
use iai_callgrind_runner::runner::callgrind::sentinel_parser::SentinelParser;
use iai_callgrind_runner::runner::callgrind::summary_parser::{SummaryError, SummaryParser};
use iai_callgrind_runner::runner::costs::Costs;

fn lines(text: &[&str]) -> Vec<String> {
    text.iter().map(|s| (*s).to_owned()).collect()
}

fn output_lines() -> Vec<String> {
    lines(&[
        "# callgrind format",
        "version: 1",
        "creator: callgrind-3.21.0",
        "pid: 1234",
        "cmd: ./bench",
        "part: 1",
        "positions: line",
        "events: Ir Dr",
        "",
        "fl=src/lib.rs",
        "fn=bench::main",
        "1 10 2",
        "cfn=helper",
        "calls=1 0",
        "2 20 2",
        "",
        "fn=helper",
        "3 20 2",
        "summary: 31 5",
        "totals: 30 4",
    ])
}

fn values(costs: &Costs) -> Vec<(EventKind, u64)> {
    costs.entries()
}

#[test]
fn header_of_callgrind_output() {
    let ls = output_lines();
    let mut pos = 0;
    let props = parse_header(&ls, &mut pos).unwrap();
    assert_eq!(pos, 8);
    assert_eq!(props.pid, Some(1234));
    assert_eq!(props.part, Some(1));
    assert_eq!(props.cmd, Some("./bench".to_owned()));
    assert_eq!(
        values(&props.costs_prototype),
        vec![(EventKind::Ir, 0), (EventKind::Dr, 0)]
    );
    assert_eq!(props.positions_prototype.len(), 1);
}

#[test]
fn header_when_no_line_then_empty_file_error() {
    let mut pos = 0;
    let result = parse_header(&lines(&["", "  "]), &mut pos);
    assert!(matches!(result, Err(HeaderError::EmptyFile)));
}

#[test]
fn header_when_version_differs_then_error() {
    let mut pos = 0;
    let result = parse_header(&lines(&["# callgrind format", "version: 2", "events: Ir"]), &mut pos);
    let error = result.unwrap_err();
    assert_eq!(
        error.message(),
        "Version mismatch: Requires callgrind format version '1' but was '2'"
    );
}

#[test]
fn header_when_no_events_then_error() {
    let mut pos = 0;
    let result = parse_header(&lines(&["# callgrind format", "version: 1"]), &mut pos);
    assert_eq!(
        result.unwrap_err().message(),
        "Header field 'events' must be present"
    );
}

#[test]
fn hashmap_parser_sums_inclusive_costs() {
    let ls = output_lines();
    let mut pos = 0;
    let props = parse_header(&ls, &mut pos).unwrap();
    let parser = HashMapParser {
        sentinel: None,
        project_root: "/project".to_owned(),
    };
    let map = parser.try_parse(&props, &ls, pos).unwrap();
    let entries: Vec<(String, Option<String>, Vec<(EventKind, u64)>)> = map
        .map
        .iter()
        .map(|(id, v)| (id.func.clone(), id.file.clone(), values(&v.costs)))
        .collect();
    assert_eq!(
        entries,
        vec![
            (
                "bench::main".to_owned(),
                Some("src/lib.rs".to_owned()),
                vec![(EventKind::Ir, 30), (EventKind::Dr, 4)]
            ),
            (
                "helper".to_owned(),
                Some("src/lib.rs".to_owned()),
                vec![(EventKind::Ir, 20), (EventKind::Dr, 2)]
            ),
        ]
    );
    let stacks = FlamegraphMap(map).to_stack_format(&EventKind::Ir).unwrap();
    assert_eq!(
        stacks,
        vec![
            "src/lib.rs:bench::main 10".to_owned(),
            "src/lib.rs:bench::main;src/lib.rs:helper 20".to_owned(),
        ]
    );
}

#[test]
fn hashmap_parser_finds_the_sentinel() {
    let ls = output_lines();
    let mut pos = 0;
    let props = parse_header(&ls, &mut pos).unwrap();
    let parser = HashMapParser {
        sentinel: Some(Sentinel::try_from_path("bench", "main").unwrap()),
        project_root: "/project".to_owned(),
    };
    let map = parser.try_parse(&props, &ls, pos).unwrap();
    assert_eq!(map.sentinel_key.unwrap().func, "bench::main");
}

#[test]
fn hashmap_parser_strips_the_project_root() {
    let ls = lines(&[
        "# callgrind format",
        "events: Ir",
        "fl=/project/src/main.rs",
        "fn=main",
        "1 5",
    ]);
    let mut pos = 0;
    let props = parse_header(&ls, &mut pos).unwrap();
    let parser = HashMapParser {
        sentinel: None,
        project_root: "/project".to_owned(),
    };
    let map = parser.try_parse(&props, &ls, pos).unwrap();
    assert_eq!(map.map[0].0.file, Some("src/main.rs".to_owned()));
}

#[test]
fn hashmap_parser_when_malformed_line_then_none() {
    let ls = lines(&["# callgrind format", "events: Ir", "fl=a.rs", "fn=main", "garbage"]);
    let mut pos = 0;
    let props = parse_header(&ls, &mut pos).unwrap();
    let parser = HashMapParser {
        sentinel: None,
        project_root: "/project".to_owned(),
    };
    assert!(parser.try_parse(&props, &ls, pos).is_none());
}

#[test]
fn sentinel_parser_collects_the_record_of_the_sentinel() {
    let ls = output_lines();
    let mut pos = 0;
    let props = parse_header(&ls, &mut pos).unwrap();
    let sentinel = Sentinel::try_from_path("bench", "main").unwrap();
    let parser = SentinelParser::new(&sentinel);
    let costs = parser.try_parse_lines(&props, &ls, pos).unwrap();
    assert_eq!(values(&costs), vec![(EventKind::Ir, 30), (EventKind::Dr, 4)]);
}

#[test]
fn sentinel_parser_when_count_does_not_parse_then_none() {
    let ls = lines(&[
        "# callgrind format",
        "positions: line",
        "events: Ir",
        "fn=main",
        "1 x",
    ]);
    let mut pos = 0;
    let props = parse_header(&ls, &mut pos).unwrap();
    let sentinel = Sentinel::new("main").unwrap();
    assert!(SentinelParser::new(&sentinel)
        .try_parse_lines(&props, &ls, pos)
        .is_none());
}

#[test]
fn sentinel_matches_whole_names_only() {
    let sentinel = Sentinel::new("main").unwrap();
    assert!(sentinel.matches("main"));
    assert!(!sentinel.matches("main2"));
    let glob = Sentinel::from_glob("bench::*").unwrap();
    assert!(glob.matches("bench::main"));
    assert!(!glob.matches("other::main"));
    assert_eq!(glob.to_string(), "^bench::.*$");
}

#[test]
fn summary_parser_prefers_totals() {
    let ls = output_lines();
    let mut pos = 0;
    let props = parse_header(&ls, &mut pos).unwrap();
    let costs = SummaryParser::parse_lines(&props.costs_prototype, &ls, pos).unwrap();
    assert_eq!(values(&costs), vec![(EventKind::Ir, 30), (EventKind::Dr, 4)]);
    let parser = SummaryParser::new("callgrind.out");
    assert_eq!(parser.output_path, "callgrind.out");
}

#[test]
fn summary_parser_takes_summary_without_totals() {
    let ls = lines(&["# callgrind format", "events: Ir Dr", "fn=main", "1 1 1", "summary: 7"]);
    let mut pos = 0;
    let props = parse_header(&ls, &mut pos).unwrap();
    let costs = SummaryParser::parse_lines(&props.costs_prototype, &ls, pos).unwrap();
    assert_eq!(values(&costs), vec![(EventKind::Ir, 7), (EventKind::Dr, 0)]);
}

#[test]
fn summary_parser_errors() {
    let ls = lines(&["# callgrind format", "events: Ir", "fn=main", "1 1"]);
    let mut pos = 0;
    let props = parse_header(&ls, &mut pos).unwrap();
    let result = SummaryParser::parse_lines(&props.costs_prototype, &ls, pos);
    assert_eq!(result.unwrap_err(), SummaryError::NoSummary);
    assert_eq!(
        SummaryError::NoSummary.message(),
        "No summary or totals line found"
    );
    let ls = lines(&["# callgrind format", "events: Ir", "totals: many"]);
    let mut pos = 0;
    let props = parse_header(&ls, &mut pos).unwrap();
    let result = SummaryParser::parse_lines(&props.costs_prototype, &ls, pos);
    assert_eq!(result.unwrap_err(), SummaryError::InvalidCount);
}

#[test]
fn cachegrind_summary_parser_takes_the_last_summary() {
    let proto = Costs::with_event_kinds(&vec![(EventKind::Ir, 0)]);
    let ls = lines(&["summary: 5", "fl=a.rs", "summary: 6"]);
    let costs = CachegrindSummaryParser::parse_lines(&proto, &ls, 0).unwrap();
    assert_eq!(values(&costs), vec![(EventKind::Ir, 6)]);
    let result = CachegrindSummaryParser::parse_lines(&proto, &lines(&["fl=a.rs"]), 0);
    assert_eq!(result.unwrap_err(), CachegrindSummaryError::NoSummary);
    assert_eq!(
        CachegrindSummaryError::NoSummary.message(),
        "No summary line found"
    );
}

#[test]
fn positions_mode_of_positions_line() {
    assert_eq!(
        PositionsMode::from_positions_line("positions: instr line"),
        Some(PositionsMode::InstrLine)
    );
    assert_eq!(
        PositionsMode::from_positions_line("positions: line"),
        Some(PositionsMode::Line)
    );
    assert_eq!(PositionsMode::from_positions_line("events: Ir"), None);
}

#[test]
fn callgrind_output_costs_of_the_benchmark_record() {
    let ls = output_lines();
    let output = CallgrindOutput {
        file: "callgrind.out".to_owned(),
    };
    let stats = output.parse(&ls, "lib.rs", &RecordSentinel::from_path("bench", "main"));
    assert_eq!(stats.instructions_executed, 30);
    assert_eq!(stats.total_data_cache_reads, 4);
    assert_eq!(stats.total_data_cache_writes, 0);
}

#[test]
fn callgrind_output_summary_takes_first_summary_line() {
    let ls = output_lines();
    let output = CallgrindOutput {
        file: "callgrind.out".to_owned(),
    };
    let stats = output.parse_summary(&ls);
    assert_eq!(stats.instructions_executed, 31);
    assert_eq!(stats.total_data_cache_reads, 5);
}

#[test]
fn callgrind_output_old_output() {
    let output = CallgrindOutput {
        file: "/out/callgrind.bench.out".to_owned(),
    };
    assert_eq!(output.old_output().file, "/out/callgrind.bench.out.old");
}

#[test]
fn callgrind_output_old_output_of_a_name_without_extension() {
    let output = CallgrindOutput {
        file: "/out/bench".to_owned(),
    };
    assert_eq!(output.old_output().file, "/out/bench.out.old");
}
