use iai_callgrind_runner::api::{EventKind, RawArgs, Tool, Tools, ValgrindTool};
use iai_callgrind_runner::error::{check_versions, version_verdict, Comparison, IaiCallgrindError};
use iai_callgrind_runner::runner::args::{parse_nocapture, BenchmarkFilter, NoCapture, Redirect};
use iai_callgrind_runner::runner::callgrind::cache::CacheSummary;
use iai_callgrind_runner::runner::common::ModulePath;
use iai_callgrind_runner::runner::costs::{Costs, CostsError};

fn cache_sim_costs() -> Costs {
    Costs::with_event_kinds(&vec![
        (EventKind::Ir, 1),
        (EventKind::Dr, 2),
        (EventKind::Dw, 3),
        (EventKind::I1mr, 4),
        (EventKind::D1mr, 5),
        (EventKind::D1mw, 6),
        (EventKind::ILmr, 7),
        (EventKind::DLmr, 8),
        (EventKind::DLmw, 9),
    ])
}

#[test]
fn model_test_metrics_make_summary_when_cache_sim() {
    let mut costs = cache_sim_costs();
    assert!(costs.can_summarize());
    assert!(!costs.is_summarized());
    costs.make_summary().unwrap();
    assert_eq!(
        costs.entries(),
        vec![
            (EventKind::Ir, 1),
            (EventKind::Dr, 2),
            (EventKind::Dw, 3),
            (EventKind::I1mr, 4),
            (EventKind::D1mr, 5),
            (EventKind::D1mw, 6),
            (EventKind::ILmr, 7),
            (EventKind::DLmr, 8),
            (EventKind::DLmw, 9),
            (EventKind::L1hits, 0),
            (EventKind::LLhits, 0),
            (EventKind::RamHits, 24),
            (EventKind::TotalRW, 6),
            (EventKind::EstimatedCycles, 840),
        ]
    );
    assert!(costs.is_summarized());
}

#[test]
fn costs_make_summary_twice_changes_nothing() {
    let mut costs = cache_sim_costs();
    costs.make_summary().unwrap();
    let once = costs.entries();
    costs.make_summary().unwrap();
    assert_eq!(costs.entries(), once);
}

#[test]
fn costs_make_summary_without_cache_sim_then_error() {
    let mut costs = Costs::with_event_kinds(&vec![(EventKind::Ir, 1)]);
    let result = costs.make_summary();
    assert_eq!(result, Err(CostsError::MissingEventKind(EventKind::Dr)));
    assert_eq!(costs.entries(), vec![(EventKind::Ir, 1)]);
    assert_eq!(
        CostsError::MissingEventKind(EventKind::Dr).message(),
        "Missing event type 'Dr'"
    );
}

#[test]
fn cache_summary_of_costs() {
    let summary = CacheSummary::try_from(&cache_sim_costs()).unwrap();
    assert_eq!(summary.l1_hits, 0);
    assert_eq!(summary.l3_hits, 0);
    assert_eq!(summary.ram_hits, 24);
    assert_eq!(summary.total_memory_rw, 6);
    assert_eq!(summary.cycles, 840);
}

#[test]
fn version_mismatch_messages() {
    let older = IaiCallgrindError::VersionMismatch(
        Comparison::Lt,
        "0.1.0".to_owned(),
        "0.2.0".to_owned(),
    );
    assert_eq!(
        older.message("0.1.0"),
        "iai-callgrind-runner (0.1.0) is older than iai-callgrind (0.2.0). Please update iai-callgrind-runner by calling 'cargo install --version 0.2.0 iai-callgrind-runner'"
    );
    let newer = IaiCallgrindError::VersionMismatch(
        Comparison::Gt,
        "0.2.0".to_owned(),
        "0.1.0".to_owned(),
    );
    assert_eq!(
        newer.message("0.2.0"),
        "iai-callgrind-runner (0.2.0) is newer than iai-callgrind (0.1.0). Please update iai-callgrind to '0.2.0' in your Cargo.toml file"
    );
    let unknown = IaiCallgrindError::VersionMismatch(
        Comparison::Ne,
        "0.2.0".to_owned(),
        "".to_owned(),
    );
    assert_eq!(
        unknown.message("0.2.0"),
        "No version information found for iai-callgrind but iai-callgrind-runner (0.2.0) is >= '0.3.0'. Please update iai-callgrind to '0.2.0' in your Cargo.toml file"
    );
}

#[test]
fn error_messages() {
    assert_eq!(
        IaiCallgrindError::ProcessError("valgrind".to_owned(), Some(1), None).message("1.0.0"),
        "Error running 'valgrind': Exit code was: '1'"
    );
    assert_eq!(
        IaiCallgrindError::ProcessError("valgrind".to_owned(), None, Some(9)).message("1.0.0"),
        "Error running 'valgrind': Terminated by a signal '9'"
    );
    assert_eq!(
        IaiCallgrindError::ProcessError("valgrind".to_owned(), Some(-2), Some(9)).message("1.0.0"),
        "Error running 'valgrind': Exit code was: '-2'"
    );
    assert_eq!(
        IaiCallgrindError::ProcessError("valgrind".to_owned(), None, None).message("1.0.0"),
        "Error running 'valgrind': Terminated abnormally"
    );
    assert_eq!(
        IaiCallgrindError::RegressionError(true).message("1.0.0"),
        "Performance has regressed. Aborting ..."
    );
    assert_eq!(
        IaiCallgrindError::RegressionError(false).message("1.0.0"),
        "Performance has regressed."
    );
    assert_eq!(
        IaiCallgrindError::ParseError("a.out".to_owned(), "bad".to_owned()).message("1.0.0"),
        "Error parsing file 'a.out': bad"
    );
    assert_eq!(
        IaiCallgrindError::LaunchError("valgrind".to_owned(), "missing".to_owned())
            .message("1.0.0"),
        "Error launching 'valgrind': missing"
    );
    assert_eq!(
        IaiCallgrindError::InvalidCallgrindBoolArgument("--cache-sim".to_owned(), "maybe".to_owned())
            .message("1.0.0"),
        "Invalid callgrind argument for --cache-sim: 'maybe'. Valid values are 'yes' or 'no'"
    );
    assert_eq!(
        IaiCallgrindError::EnvironmentVariableError("HOME".to_owned(), "unset".to_owned())
            .message("1.0.0"),
        "Failed parsing environment variable HOME: unset"
    );
    assert_eq!(
        IaiCallgrindError::SandboxError("denied".to_owned()).message("1.0.0"),
        "Error in sandbox: denied"
    );
    assert_eq!(
        IaiCallgrindError::BenchmarkError(
            "dhat".to_owned(),
            ModulePath::new("bench::group"),
            "failed".to_owned()
        )
        .message("1.0.0"),
        "Error in dhat benchmark bench::group: failed"
    );
    assert!(IaiCallgrindError::InitError("no args".to_owned())
        .message("1.2.3")
        .starts_with("Failed to initialize iai-callgrind-runner: no args\n\nDetected version of iai-callgrind-runner is 1.2.3."));
}

#[test]
fn version_verdict_on_comparisons() {
    assert_eq!(version_verdict(Some(Comparison::Eq), "1.0.0", "1.0.0"), Ok(()));
    assert_eq!(
        version_verdict(None, "1.0.0", "x"),
        Err(IaiCallgrindError::VersionMismatch(
            Comparison::Ne,
            "1.0.0".to_owned(),
            "x".to_owned()
        ))
    );
    assert_eq!(
        version_verdict(Some(Comparison::Gt), "2.0.0", "1.0.0"),
        Err(IaiCallgrindError::VersionMismatch(
            Comparison::Gt,
            "2.0.0".to_owned(),
            "1.0.0".to_owned()
        ))
    );
}

#[test]
fn check_versions_with_version_compare() {
    assert_eq!(check_versions("0.14.0", "0.14.0"), Ok(()));
    assert_eq!(
        check_versions("0.13.0", "0.14.0"),
        Err(IaiCallgrindError::VersionMismatch(
            Comparison::Lt,
            "0.13.0".to_owned(),
            "0.14.0".to_owned()
        ))
    );
    assert_eq!(
        check_versions("0.14.0", "abc"),
        Err(IaiCallgrindError::VersionMismatch(
            Comparison::Ne,
            "0.14.0".to_owned(),
            "abc".to_owned()
        ))
    );
}

#[test]
fn benchmark_filter_applies_to_names_containing_it() {
    let filter = BenchmarkFilter::from_str("group::bench");
    assert!(filter.apply("file::group::bench_1"));
    assert!(!filter.apply("file::group::other"));
    assert!(BenchmarkFilter::from_str("").apply("anything"));
}

#[test]
fn nocapture_values() {
    assert_eq!(parse_nocapture("true"), Ok(NoCapture::True));
    assert_eq!(parse_nocapture("YES"), Ok(NoCapture::True));
    assert_eq!(parse_nocapture("1"), Ok(NoCapture::True));
    assert_eq!(parse_nocapture("false"), Ok(NoCapture::False));
    assert_eq!(parse_nocapture("Off"), Ok(NoCapture::False));
    assert_eq!(parse_nocapture("stdout"), Ok(NoCapture::Stdout));
    assert_eq!(parse_nocapture("StdErr"), Ok(NoCapture::Stderr));
    assert_eq!(parse_nocapture("maybe"), Err("Invalid value: maybe".to_owned()));
}

#[test]
fn nocapture_redirects() {
    assert_eq!(NoCapture::True.redirects(), None);
    assert_eq!(NoCapture::False.redirects(), None);
    assert_eq!(
        NoCapture::Stderr.redirects(),
        Some((Redirect::Null, Redirect::Inherit))
    );
    assert_eq!(
        NoCapture::Stdout.redirects(),
        Some((Redirect::Inherit, Redirect::Null))
    );
}

#[test]
fn event_kind_name_round_trip() {
    for kind in [EventKind::Ir, EventKind::Dr, EventKind::DLmw, EventKind::EstimatedCycles, EventKind::SpLoss2] {
        assert_eq!(EventKind::from_name(&kind.to_name()), kind);
    }
    let sys: Vec<char> = EventKind::SysCount.to_name().chars().collect();
    assert_eq!(EventKind::SysCount.to_name(), "SysCount");
    assert_eq!(EventKind::try_from_name(&sys), None);
    assert_eq!(EventKind::from_name("sysCount"), EventKind::SysCount);
}

#[test]
fn module_path_parent_joined_with_last_is_the_path() {
    let path = ModulePath::new("file::group::bench");
    let parent = path.parent().unwrap();
    let last = path.last().unwrap();
    assert_eq!(parent.as_str(), "file::group");
    assert_eq!(last.as_str(), "bench");
    assert_eq!(parent.join(last.as_str()), path);
    assert!(ModulePath::new("single").parent().is_none());
}

fn tool(kind: ValgrindTool, enable: bool) -> Tool {
    Tool {
        kind,
        enable: Some(enable),
        raw_args: RawArgs::new(vec![]),
        show_log: None,
    }
}

#[test]
fn tools_update_all_last_of_a_kind_wins() {
    let mut tools = Tools(vec![tool(ValgrindTool::DHAT, true), tool(ValgrindTool::Massif, true)]);
    tools.update_all(vec![
        tool(ValgrindTool::DHAT, false),
        tool(ValgrindTool::Memcheck, true),
        tool(ValgrindTool::DHAT, true),
    ]);
    assert_eq!(
        tools,
        Tools(vec![
            tool(ValgrindTool::Massif, true),
            tool(ValgrindTool::Memcheck, true),
            tool(ValgrindTool::DHAT, true),
        ])
    );
}

#[test]
fn module_path_last_and_parent_undo_join() {
    let path = ModulePath::new("file::group");
    let joined = path.join("bench");
    assert_eq!(joined.as_str(), "file::group::bench");
    assert_eq!(joined.last().unwrap(), ModulePath::new("bench"));
    assert_eq!(joined.parent().unwrap(), path);
    assert!(ModulePath::new("bench").last().is_none());
    assert!(ModulePath::new("bench").parent().is_none());
}
