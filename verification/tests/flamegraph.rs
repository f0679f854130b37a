use iai_callgrind_runner::api::EventKind;
use iai_callgrind_runner::runner::callgrind::flamegraph::OutputPath;
use iai_callgrind_runner::runner::callgrind::flamegraph_parser::{
    total_flamegraph_map_from_parsed, FlamegraphError, FlamegraphMap,
};
use iai_callgrind_runner::runner::callgrind::hashmap_parser::{CallgrindMap, Id, Value};
use iai_callgrind_runner::runner::costs::{Costs, CostsError};
use iai_callgrind_runner::runner::flamegraph::{Output, Stack, Stacks};
use iai_callgrind_runner::runner::tool::{BaselineKind, ToolOutputPath, ToolOutputPathKind};

fn costs(pairs: &[(EventKind, u64)]) -> Costs {
    Costs::with_event_kinds(&pairs.to_vec())
}

fn id(obj: Option<&str>, file: Option<&str>, func: &str) -> Id {
    Id {
        obj: obj.map(str::to_owned),
        file: file.map(str::to_owned),
        func: func.to_owned(),
    }
}

fn map(entries: Vec<(Id, u64)>, sentinel_key: Option<Id>) -> FlamegraphMap {
    FlamegraphMap(CallgrindMap {
        map: entries
            .into_iter()
            .map(|(i, c)| {
                (
                    i,
                    Value {
                        costs: costs(&[(EventKind::Ir, c)]),
                    },
                )
            })
            .collect(),
        sentinel: None,
        sentinel_key,
    })
}

fn three_functions(sentinel_key: Option<Id>) -> FlamegraphMap {
    map(
        vec![
            (id(None, Some("a.rs"), "a"), 100),
            (id(None, None, "b"), 60),
            (id(Some("lib.so"), None, "c"), 60),
        ],
        sentinel_key,
    )
}

fn ir_costs(m: &FlamegraphMap) -> Vec<(String, u64)> {
    m.0.map
        .iter()
        .map(|(i, v)| (i.func.clone(), v.costs.cost_by_kind(&EventKind::Ir).unwrap()))
        .collect()
}

#[test]
fn stack_format_sorts_by_cost_then_name() {
    let stacks = three_functions(None)
        .to_stack_format(&EventKind::Ir)
        .unwrap();
    assert_eq!(
        stacks,
        vec![
            "a.rs:a 40".to_owned(),
            "a.rs:a;b 0".to_owned(),
            "a.rs:a;b;c [lib.so] 60".to_owned(),
        ]
    );
}

#[test]
fn stack_format_costs_add_up_to_the_highest_cost() {
    let stacks = three_functions(None)
        .to_stack_format(&EventKind::Ir)
        .unwrap();
    let total: u64 = stacks
        .iter()
        .map(|s| s.rsplit_once(' ').unwrap().1.parse::<u64>().unwrap())
        .sum();
    assert_eq!(total, 100);
}

#[test]
fn stack_format_leaves_out_functions_costing_more_than_the_sentinel() {
    let stacks = three_functions(Some(id(None, None, "b")))
        .to_stack_format(&EventKind::Ir)
        .unwrap();
    assert_eq!(
        stacks,
        vec!["b 0".to_owned(), "b;c [lib.so] 60".to_owned()]
    );
}

#[test]
fn stack_format_of_a_single_function() {
    let stacks = map(vec![(id(None, None, "main"), 7)], None)
        .to_stack_format(&EventKind::Ir)
        .unwrap();
    assert_eq!(stacks, vec!["main 7".to_owned()]);
}

#[test]
fn stack_format_of_an_empty_map() {
    let m = map(vec![], None);
    assert!(m.is_empty());
    assert_eq!(m.to_stack_format(&EventKind::Ir).unwrap(), Vec::<String>::new());
}

#[test]
fn stack_format_when_event_kind_is_missing_then_error() {
    let result = three_functions(None).to_stack_format(&EventKind::EstimatedCycles);
    assert_eq!(
        result,
        Err(FlamegraphError::MissingEventKind(EventKind::EstimatedCycles))
    );
    assert_eq!(
        result.unwrap_err().message(),
        "Failed creating flamegraph stack: Missing event type 'Estimated Cycles'"
    );
}

#[test]
fn add_sums_the_costs_of_shared_functions_and_appends_the_others() {
    let mut m = map(vec![(id(None, None, "a"), 100)], None);
    let other = map(
        vec![(id(None, None, "a"), 5), (id(None, None, "d"), 7)],
        None,
    );
    m.add(&other);
    assert_eq!(
        ir_costs(&m),
        vec![("a".to_owned(), 105), ("d".to_owned(), 7)]
    );
}

#[test]
fn total_of_no_maps_is_none() {
    assert!(total_flamegraph_map_from_parsed(&vec![]).is_none());
}

#[test]
fn total_of_maps_is_their_sum() {
    let maps = vec![
        map(vec![(id(None, None, "a"), 1)], None),
        map(vec![(id(None, None, "b"), 2)], None),
        map(vec![(id(None, None, "a"), 3)], None),
    ];
    let total = total_flamegraph_map_from_parsed(&maps).unwrap();
    assert_eq!(
        ir_costs(&total),
        vec![("a".to_owned(), 4), ("b".to_owned(), 2)]
    );
}

fn cache_sim_costs() -> Costs {
    costs(&[
        (EventKind::Ir, 1),
        (EventKind::Dr, 2),
        (EventKind::Dw, 3),
        (EventKind::I1mr, 4),
        (EventKind::D1mr, 5),
        (EventKind::D1mw, 6),
        (EventKind::ILmr, 7),
        (EventKind::DLmr, 8),
        (EventKind::DLmw, 9),
    ])
}

#[test]
fn make_summary_of_flamegraph_map_summarizes_each_function() {
    let mut m = FlamegraphMap(CallgrindMap {
        map: vec![(
            id(None, None, "main"),
            Value {
                costs: cache_sim_costs(),
            },
        )],
        sentinel: None,
        sentinel_key: None,
    });
    m.make_summary().unwrap();
    let c = &m.0.map[0].1.costs;
    assert_eq!(c.cost_by_kind(&EventKind::RamHits), Some(24));
    assert_eq!(c.cost_by_kind(&EventKind::TotalRW), Some(6));
    assert_eq!(c.cost_by_kind(&EventKind::EstimatedCycles), Some(840));
}

#[test]
fn make_summary_of_flamegraph_map_without_cache_sim_is_noop() {
    let mut m = map(vec![(id(None, None, "main"), 3)], None);
    m.make_summary().unwrap();
    assert_eq!(ir_costs(&m), vec![("main".to_owned(), 3)]);
    assert_eq!(m.0.map[0].1.costs.len(), 1);
}

#[test]
fn make_summary_of_flamegraph_map_when_second_lacks_counts_then_error() {
    let mut m = FlamegraphMap(CallgrindMap {
        map: vec![
            (
                id(None, None, "main"),
                Value {
                    costs: cache_sim_costs(),
                },
            ),
            (
                id(None, None, "other"),
                Value {
                    costs: costs(&[(EventKind::Ir, 1), (EventKind::I1mr, 1)]),
                },
            ),
        ],
        sentinel: None,
        sentinel_key: None,
    });
    let result = m.make_summary();
    assert_eq!(
        result,
        Err(FlamegraphError::Summary(CostsError::MissingEventKind(
            EventKind::Dr
        )))
    );
    assert_eq!(
        result.unwrap_err().message(),
        "Failed calculating summary events: Missing event type 'Dr'"
    );
    assert_eq!(
        m.0.map[0].1.costs.cost_by_kind(&EventKind::EstimatedCycles),
        Some(840)
    );
}

fn tool_output_path(baseline_kind: BaselineKind) -> ToolOutputPath {
    ToolOutputPath {
        kind: ToolOutputPathKind::Out,
        baseline_kind,
        dir: "/target/iai".to_owned(),
        name: "bench.group.id".to_owned(),
    }
}

#[test]
fn output_path_file_names() {
    let mut path = OutputPath::new(&tool_output_path(BaselineKind::Old), EventKind::Ir);
    assert_eq!(path.extension(), "Ir.flamegraph.svg");
    assert_eq!(path.file_name(), "callgrind.bench.group.id.Ir.flamegraph.svg");
    path.set_modifiers(vec!["total".to_owned()]);
    assert_eq!(
        path.file_name(),
        "callgrind.bench.group.id.total.Ir.flamegraph.svg"
    );
    assert_eq!(
        path.to_path(),
        "/target/iai/callgrind.bench.group.id.total.Ir.flamegraph.svg"
    );
    assert_eq!(
        path.to_diff_path().file_name(),
        "callgrind.bench.group.id.total.Ir.flamegraph.diff.old.svg"
    );
    assert_eq!(
        path.to_base_path().file_name(),
        "callgrind.bench.group.id.total.Ir.flamegraph.old.svg"
    );
    path.set_event_kind(EventKind::Dr);
    assert_eq!(path.extension(), "Dr.flamegraph.svg");
}

#[test]
fn output_path_with_named_baselines() {
    let path = OutputPath::new(
        &tool_output_path(BaselineKind::Name("foo".to_owned())),
        EventKind::Ir,
    );
    assert_eq!(
        path.to_diff_path().extension(),
        "Ir.flamegraph.diff.base@foo.svg"
    );
    let base = path.to_base_path();
    assert_eq!(base.extension(), "Ir.flamegraph.base@foo.svg");
    assert_eq!(
        base.to_diff_path().extension(),
        "Ir.flamegraph.base@foo.diff.base@foo.svg"
    );
    let diff = path.to_diff_path();
    assert_eq!(diff.to_diff_path().extension(), diff.extension());
}

#[test]
fn output_path_real_paths() {
    let path = OutputPath::new(&tool_output_path(BaselineKind::Old), EventKind::Ir);
    assert!(path.is_real_path(&path.file_name(), false));
    assert!(path.is_real_path("callgrind.bench.group.id.total.Ir.flamegraph.svg", false));
    assert!(!path.is_real_path("callgrind.bench.group.id.total.Dr.flamegraph.svg", false));
    assert!(path.is_real_path("callgrind.bench.group.id.total.Dr.flamegraph.svg", true));
    assert!(!path.is_real_path("callgrind.other.Ir.flamegraph.svg", true));
}

#[test]
fn output_path_diff_files() {
    let old = OutputPath::new(&tool_output_path(BaselineKind::Old), EventKind::Ir);
    assert_eq!(
        old.diff_file_matches(&old.to_diff_path().file_name()),
        (true, false)
    );
    let named = OutputPath::new(
        &tool_output_path(BaselineKind::Name("foo".to_owned())),
        EventKind::Ir,
    );
    assert_eq!(
        named.diff_file_matches("callgrind.bench.group.id.total.Ir.flamegraph.base@foo.diff.base@bar.svg"),
        (false, true)
    );
    assert_eq!(
        named.diff_file_matches("callgrind.bench.group.id.Ir.flamegraph.diff.base@foo.svg"),
        (true, false)
    );
    assert_eq!(named.diff_file_matches("unrelated.svg"), (false, false));
}

#[test]
fn stack_to_string() {
    let mut stack = Stack::new("main", costs(&[(EventKind::Ir, 10)]), false);
    stack.add("inlined", costs(&[(EventKind::Ir, 5)]), true);
    assert!(stack.contains("inlined", true));
    assert!(!stack.contains("inlined", false));
    assert_eq!(stack.to_string(&EventKind::Ir).unwrap(), "main;[inlined] 5");
    let error = stack.to_string(&EventKind::EstimatedCycles).unwrap_err();
    assert_eq!(
        error.message(),
        "Failed creating flamegraph stack: Missing event type 'Estimated Cycles'. Possible event types are: ', Instructions'"
    );
}

#[test]
fn stacks_add_and_encode() {
    let mut stacks = Stacks(vec![]);
    assert!(stacks.is_empty());
    stacks.add("main", costs(&[(EventKind::Ir, 10)]), false, None);
    let base = stacks.last().unwrap().duplicate();
    stacks.add("helper", costs(&[(EventKind::Ir, 3)]), false, Some(&base));
    assert_eq!(
        stacks.encode(&EventKind::Ir).unwrap(),
        vec!["main 10".to_owned(), "main;helper 3".to_owned()]
    );
    assert!(stacks.encode(&EventKind::Dr).is_err());
}

#[test]
fn output_for_event_kind_and_diff() {
    let output = Output::for_event_kind("/out/callgrind.bench.out", &EventKind::Ir);
    assert_eq!(output.0, "/out/callgrind.bench.Instructions.svg");
    assert_eq!(
        output.to_diff_output().0,
        "/out/callgrind.bench.Instructions.diff.svg"
    );
}
