use iai_callgrind_runner::api::EventKind;
use iai_callgrind_runner::runner::cachegrind::parser::{parse_header, CachegrindHeaderError};
use iai_callgrind_runner::runner::cachegrind::summary_parser::SummaryParser;

fn lines(text: &str) -> Vec<String> {
    text.lines().map(str::to_owned).collect()
}

#[test]
fn cachegrind_header_and_summary() {
    let lines = lines(
        "# a comment\n\
         desc: I1 cache:         32768 B, 64 B, 8-way associative\n\
         desc: Option: --cache-sim=yes\n\
         cmd: target/release/bench --iai-run\n\
         \n\
         events: Ir I1mr ILmr\n\
         fl=file.rs\n\
         fn=main\n\
         1 10 2 1\n\
         summary: 10 2 1\n",
    );
    let mut pos = 0;
    let props = parse_header(&lines, &mut pos).unwrap();
    assert_eq!(pos, 6);
    assert_eq!(props.cmd, "target/release/bench --iai-run");
    assert_eq!(
        props.desc,
        vec!["I1 cache:         32768 B, 64 B, 8-way associative".to_owned()]
    );
    assert_eq!(
        props.metrics_prototype.entries(),
        vec![(EventKind::Ir, 0), (EventKind::I1mr, 0), (EventKind::ILmr, 0)]
    );
    let costs = SummaryParser::parse_lines(&props.metrics_prototype, &lines, pos).unwrap();
    assert_eq!(
        costs.entries(),
        vec![(EventKind::Ir, 10), (EventKind::I1mr, 2), (EventKind::ILmr, 1)]
    );
}

#[test]
fn cachegrind_header_errors() {
    let mut pos = 0;
    let missing_events = lines("cmd: bench\n");
    assert_eq!(
        parse_header(&missing_events, &mut pos).unwrap_err(),
        CachegrindHeaderError::MissingEvents
    );
    assert_eq!(pos, 1);

    let mut pos = 0;
    let missing_cmd = lines("desc: x\nevents: Ir\nsummary: 1\n");
    let error = parse_header(&missing_cmd, &mut pos).unwrap_err();
    assert_eq!(error, CachegrindHeaderError::MissingCmd);
    assert_eq!(error.message(), "Header field 'cmd' must be present");
    assert_eq!(pos, 2);

    let mut pos = 0;
    let unknown = lines("cmd: bench\nevents: Ir Foo Bar\n");
    let error = parse_header(&unknown, &mut pos).unwrap_err();
    assert_eq!(error, CachegrindHeaderError::UnknownEvent("Foo".to_owned()));
    assert_eq!(error.message(), "Unknown event type: Foo");
}
