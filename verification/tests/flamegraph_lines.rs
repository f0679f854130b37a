use iai_callgrind_runner::api::{Direction, EventKind};
use iai_callgrind_runner::runner::costs::Costs;
use iai_callgrind_runner::runner::flamegraph::{Flamegraph, Stacks};

fn stacks_with(kinds: &[(EventKind, u64)]) -> Stacks {
    let mut stacks = Stacks(vec![]);
    stacks.add("main", Costs::with_event_kinds(&kinds.to_vec()), false, None);
    let base = stacks.0[0].duplicate();
    stacks.add("inner", Costs::with_event_kinds(&kinds.to_vec()), true, Some(&base));
    stacks
}

fn flamegraph(
    stacks: Stacks,
    kinds: Vec<EventKind>,
    ignore_missing: bool,
    differential: bool,
) -> Flamegraph {
    Flamegraph::new(
        "my heading".to_owned(),
        stacks,
        None,
        None,
        kinds,
        ignore_missing,
        Direction::BottomToTop,
        differential,
    )
}

#[test]
fn flamegraph_new_titles() {
    let f = flamegraph(Stacks(vec![]), vec![], false, false);
    assert_eq!(f.config.title, "my");
    assert_eq!(f.config.subtitle, "heading");

    let f = Flamegraph::new(
        "the heading".to_owned(),
        Stacks(vec![]),
        Some("title".to_owned()),
        None,
        vec![],
        false,
        Direction::TopToBottom,
        true,
    );
    assert_eq!(f.config.title, "title");
    assert_eq!(f.config.subtitle, "the heading");
    assert_eq!(f.config.direction, Direction::TopToBottom);
    assert!(f.config.differential);

    let f = Flamegraph::new(
        "nospace".to_owned(),
        Stacks(vec![]),
        None,
        Some("sub".to_owned()),
        vec![],
        false,
        Direction::TopToBottom,
        false,
    );
    assert_eq!(f.config.title, "nospace");
    assert_eq!(f.config.subtitle, "sub");
}

#[test]
fn flamegraph_lines_per_event_kind() {
    let stacks = stacks_with(&[(EventKind::Ir, 10), (EventKind::Dr, 3)]);
    let f = flamegraph(stacks, vec![EventKind::Ir, EventKind::Dr], false, false);
    let (lines, error) = f.lines(None);
    assert!(error.is_none());
    assert_eq!(lines.len(), 2);
    assert_eq!(lines[0].event_kind, EventKind::Ir);
    assert_eq!(lines[0].lines, vec!["main 10".to_owned(), "main;[inner] 10".to_owned()]);
    assert_eq!(lines[1].event_kind, EventKind::Dr);
    assert_eq!(lines[1].lines, vec!["main 3".to_owned(), "main;[inner] 3".to_owned()]);
    assert!(lines[0].old_lines.is_none());
}

#[test]
fn flamegraph_lines_without_stacks_is_nothing() {
    let f = flamegraph(Stacks(vec![]), vec![EventKind::Ir], false, false);
    let (lines, error) = f.lines(None);
    assert!(lines.is_empty());
    assert!(error.is_none());
}

#[test]
fn flamegraph_lines_when_missing_event_kind_then_error_or_skip() {
    let stacks = stacks_with(&[(EventKind::Ir, 10)]);
    let f = flamegraph(stacks, vec![EventKind::Ir, EventKind::Dr, EventKind::Ir], false, false);
    let (lines, error) = f.lines(None);
    assert_eq!(lines.len(), 1);
    let error = error.unwrap();
    assert_eq!(error.event_kind, EventKind::Dr);

    let stacks = stacks_with(&[(EventKind::Ir, 10)]);
    let f = flamegraph(stacks, vec![EventKind::Ir, EventKind::Dr, EventKind::Ir], true, false);
    let (lines, error) = f.lines(None);
    assert!(error.is_none());
    assert_eq!(lines.len(), 2);
    assert_eq!(lines[1].event_kind, EventKind::Ir);
}

#[test]
fn flamegraph_lines_differential_with_old_stacks() {
    let stacks = stacks_with(&[(EventKind::Ir, 10), (EventKind::Dr, 3)]);
    let old = stacks_with(&[(EventKind::Ir, 8)]);
    let f = flamegraph(stacks, vec![EventKind::Ir, EventKind::Dr], true, true);
    let (lines, error) = f.lines(Some(&old));
    assert!(error.is_none());
    assert_eq!(lines.len(), 2);
    assert_eq!(
        lines[0].old_lines,
        Some(vec!["main 8".to_owned(), "main;[inner] 8".to_owned()])
    );
    assert!(lines[1].old_lines.is_none());

    let stacks = stacks_with(&[(EventKind::Ir, 10), (EventKind::Dr, 3)]);
    let old = stacks_with(&[(EventKind::Ir, 8)]);
    let f = flamegraph(stacks, vec![EventKind::Dr, EventKind::Ir], false, true);
    let (lines, error) = f.lines(Some(&old));
    assert_eq!(lines.len(), 1);
    assert_eq!(lines[0].event_kind, EventKind::Dr);
    assert!(lines[0].old_lines.is_none());
    assert!(error.is_some());
}

#[test]
fn flamegraph_lines_ignores_old_stacks_unless_differential() {
    let stacks = stacks_with(&[(EventKind::Ir, 10)]);
    let old = stacks_with(&[(EventKind::Ir, 8)]);
    let f = flamegraph(stacks, vec![EventKind::Ir], false, false);
    let (lines, _) = f.lines(Some(&old));
    assert!(lines[0].old_lines.is_none());
}

#[test]
fn direction_default_is_top_to_bottom() {
    assert_eq!(Direction::default(), Direction::TopToBottom);
}
