use iai_callgrind_runner::api::DhatMetricKind;
use iai_callgrind_runner::runner::dhat::model::{DhatData, Frame, Mode, ProgramPoint};
use iai_callgrind_runner::api::EntryPoint;
use iai_callgrind_runner::pattern::Pattern;
use iai_callgrind_runner::runner::dhat::tree::{totals_fit_check, try_from_json, Data, Node, Tree};

fn tree_fixture() -> Tree {
    Tree {
        root: Box::new(Node::new(
            vec![],
            vec![Node::new(
                vec![1, 2, 3],
                vec![Node::new(vec![4, 5], vec![], data_fixture(1))],
                data_fixture(2),
            )],
            data_fixture(2),
        )),
    }
}

fn data_fixture(num: u64) -> Data {
    Data {
        total_bytes: num,
        ..Default::default()
    }
}

#[test]
fn test_insert_empty() {
    let mut expected = Tree::default();
    expected.root.data = data_fixture(1);

    let mut tree = Tree::default();
    tree.insert(&vec![], &data_fixture(1));

    assert_eq!(tree, expected);
}

#[test]
fn test_insert_full_shorter() {
    let expected = Tree {
        root: Box::new(Node::new(
            vec![],
            vec![Node::new(
                vec![1],
                vec![Node::new(
                    vec![2, 3],
                    vec![Node::new(vec![4, 5], vec![], data_fixture(1))],
                    data_fixture(2),
                )],
                data_fixture(3),
            )],
            data_fixture(3),
        )),
    };

    let mut tree = tree_fixture();
    tree.insert(&vec![1], &data_fixture(1));

    assert_eq!(tree, expected);
}

#[test]
fn test_insert_full_longer() {
    let expected = Tree {
        root: Box::new(Node::new(
            vec![],
            vec![Node::new(
                vec![1, 2, 3],
                vec![
                    Node::new(vec![4, 5], vec![], data_fixture(1)),
                    Node::new(vec![6], vec![], data_fixture(1)),
                ],
                data_fixture(3),
            )],
            data_fixture(3),
        )),
    };

    let mut tree = tree_fixture();
    tree.insert(&vec![1, 2, 3, 6], &data_fixture(1));

    assert_eq!(tree, expected);
}

#[test]
fn test_insert_mixed() {
    let expected = Tree {
        root: Box::new(Node::new(
            vec![],
            vec![Node::new(
                vec![1],
                vec![
                    Node::new(
                        vec![2, 3],
                        vec![Node::new(vec![4, 5], vec![], data_fixture(1))],
                        data_fixture(2),
                    ),
                    Node::new(vec![6], vec![], data_fixture(1)),
                ],
                data_fixture(3),
            )],
            data_fixture(3),
        )),
    };

    let mut tree = tree_fixture();
    tree.insert(&vec![1, 6], &data_fixture(1));

    assert_eq!(tree, expected);
}

#[test]
fn test_insert_no_match() {
    let expected = Tree {
        root: Box::new(Node::new(
            vec![],
            vec![
                Node::new(
                    vec![1, 2, 3],
                    vec![Node::new(vec![4, 5], vec![], data_fixture(1))],
                    data_fixture(2),
                ),
                Node::new(vec![6], vec![], data_fixture(1)),
            ],
            data_fixture(3),
        )),
    };

    let mut tree = tree_fixture();
    tree.insert(&vec![6], &data_fixture(1));

    assert_eq!(tree, expected);
}

#[test]
fn test_insert_equal() {
    let expected = Tree {
        root: Box::new(Node::new(
            vec![],
            vec![Node::new(
                vec![1, 2, 3],
                vec![Node::new(vec![4, 5], vec![], data_fixture(1))],
                data_fixture(3),
            )],
            data_fixture(3),
        )),
    };

    let mut tree = tree_fixture();
    tree.insert(&vec![1, 2, 3], &data_fixture(1));

    assert_eq!(tree, expected);
}

#[test]
fn test_insert_splits_in_the_middle_of_a_prefix() {
    let expected = Tree {
        root: Box::new(Node::new(
            vec![],
            vec![Node::new(
                vec![1, 2],
                vec![
                    Node::new(
                        vec![3],
                        vec![Node::new(vec![4, 5], vec![], data_fixture(1))],
                        data_fixture(2),
                    ),
                    Node::new(vec![7, 8], vec![], data_fixture(1)),
                ],
                data_fixture(3),
            )],
            data_fixture(3),
        )),
    };

    let mut tree = tree_fixture();
    tree.insert(&vec![1, 2, 7, 8], &data_fixture(1));

    assert_eq!(tree, expected);
}

#[test]
fn test_insert_root_aggregates_optional_counters() {
    let mut tree = Tree::default();
    let first = Data {
        total_bytes: 10,
        total_blocks: 1,
        maximum_bytes: Some(4),
        ..Default::default()
    };
    let second = Data {
        total_bytes: 5,
        total_blocks: 2,
        maximum_bytes: Some(6),
        bytes_at_end: Some(3),
        ..Default::default()
    };
    tree.insert(&vec![1], &first);
    tree.insert(&vec![2], &second);

    assert_eq!(tree.root.data.total_bytes, 15);
    assert_eq!(tree.root.data.total_blocks, 3);
    assert_eq!(tree.root.data.maximum_bytes, Some(10));
    assert_eq!(tree.root.data.bytes_at_end, Some(3));
    assert_eq!(tree.root.data.blocks_read, None);
}

fn program_point(bytes: u64, frames: Vec<usize>) -> ProgramPoint {
    ProgramPoint {
        total_bytes: bytes,
        total_blocks: 1,
        total_lifetimes: Some(7),
        maximum_bytes: None,
        maximum_blocks: None,
        bytes_at_max: Some(bytes),
        blocks_at_max: None,
        bytes_at_end: None,
        blocks_at_end: None,
        blocks_read: None,
        blocks_write: None,
        accesses: None,
        frames,
    }
}

fn dhat_data(program_points: Vec<ProgramPoint>) -> DhatData {
    DhatData {
        dhat_file_version: 2,
        mode: Mode::Heap,
        verb: "Allocated".to_owned(),
        has_block_lifetimes: true,
        has_block_accesses: false,
        byte_unit: None,
        bytes_unit: None,
        block_unit: None,
        time_unit: "instrs".to_owned(),
        time_unit_m: "Minstr".to_owned(),
        time_threshold: Some(500),
        command: "./prog".to_owned(),
        pid: 1234,
        time_end: 100,
        time_global_max: Some(50),
        program_points,
        frame_table: vec![Frame::Root],
    }
}

#[test]
fn test_tree_from_dhat_data_and_metrics() {
    let data = dhat_data(vec![
        program_point(16, vec![1, 2]),
        program_point(32, vec![1, 3]),
    ]);
    let tree = Tree::from(data);
    assert_eq!(
        tree.metrics(),
        vec![
            (DhatMetricKind::TotalBytes, 48),
            (DhatMetricKind::TotalBlocks, 2),
            (DhatMetricKind::AtTGmaxBytes, 48),
            (DhatMetricKind::TotalLifetimes, 14),
        ]
    );
    assert_eq!(tree.root.children.len(), 1);
    assert_eq!(tree.root.children[0].prefix, vec![1]);
}

#[test]
fn test_data_zero_and_add() {
    let mut data = Data::zero();
    data.add(&data_fixture(4));
    assert_eq!(data.total_bytes, 4);
    assert_eq!(data.maximum_bytes, Some(0));
}

#[test]
fn test_node_with_prefix() {
    let node = Node::with_prefix(vec![1, 2]);
    assert_eq!(node, Node::new(vec![1, 2], vec![], Data::default()));
}

#[test]
fn test_frame_from_str_when_root() {
    let expected = Frame::Root;
    let actual = "[root]".parse::<Frame>().unwrap();
    assert_eq!(actual, expected);
}

#[test]
fn test_frame_from_str_when_leaf() {
    let expected = Frame::leaf("0x1234", "malloc", "in /usr/lib/some.so");
    let actual = "0x1234: malloc (in /usr/lib/some.so)".parse::<Frame>().unwrap();
    assert_eq!(actual, expected);
}

#[test]
fn test_frame_from_str_with_parentheses_in_function() {
    let expected = Frame::leaf("0x40440E3", "call_once<(), (dyn Fn<(), Output=i32>)>", "function.rs:284");
    let actual = "0x40440E3: call_once<(), (dyn Fn<(), Output=i32>)> (function.rs:284)"
        .parse::<Frame>()
        .unwrap();
    assert_eq!(actual, expected);
}

#[test]
fn test_frame_from_str_when_invalid() {
    assert_eq!(
        "no frame".parse::<Frame>(),
        Err("invalid frame format".to_owned())
    );
}

#[test]
fn test_frame_to_string() {
    assert_eq!(Frame::Root.to_string(), "[root]");
    assert_eq!(
        Frame::leaf("0x1234", "malloc", "in /usr/lib/some.so").to_string(),
        "0x1234: malloc (in /usr/lib/some.so)"
    );
}

#[test]
fn test_mode_names() {
    assert_eq!(Mode::from_name("AD-HOC"), Some(Mode::AdHoc));
    assert_eq!(Mode::from_name("heap"), Some(Mode::Heap));
    assert_eq!(Mode::from_name("Copy"), Some(Mode::Copy));
    assert_eq!(Mode::from_name("other"), None);
    assert_eq!(Mode::AdHoc.name(), "ad-hoc");
    assert_eq!(Mode::default(), Mode::Heap);
}

fn dhat_data_with_frames(program_points: Vec<ProgramPoint>) -> DhatData {
    let mut data = dhat_data(program_points);
    data.frame_table = vec![
        Frame::Root,
        Frame::leaf("0x1", "main", "main.rs:1"),
        Frame::leaf("0x2", "bench::alloc_vec", "lib.rs:2"),
        Frame::leaf("0x3", "other::alloc", "lib.rs:3"),
    ];
    data
}

#[test]
fn test_tree_from_json_by_default_takes_all_program_points() {
    let data = dhat_data_with_frames(vec![
        program_point(16, vec![0, 1, 2]),
        program_point(32, vec![0, 1, 3]),
    ]);
    let tree = try_from_json(data, &EntryPoint::Disabled, &vec![], None).unwrap();
    assert_eq!(tree.root.data.total_bytes, 48);
}

#[test]
fn test_tree_from_json_takes_program_points_through_matched_frames() {
    let data = dhat_data_with_frames(vec![
        program_point(16, vec![0, 1, 2]),
        program_point(32, vec![0, 1, 3]),
    ]);
    let entry = Pattern::new("^bench::.*$").unwrap();
    let tree = try_from_json(data, &EntryPoint::Default, &vec![], Some(&entry)).unwrap();
    assert_eq!(tree.root.data.total_bytes, 16);
    assert_eq!(tree.root.data.total_blocks, 1);
}

#[test]
fn test_tree_from_json_with_frame_patterns() {
    let data = dhat_data_with_frames(vec![
        program_point(16, vec![0, 1, 2]),
        program_point(32, vec![0, 1, 3]),
        program_point(64, vec![0, 1]),
    ]);
    let frames = vec![Pattern::new("alloc").unwrap()];
    let tree = try_from_json(data, &EntryPoint::Disabled, &frames, None).unwrap();
    assert_eq!(tree.root.data.total_bytes, 48);
}

#[test]
fn test_tree_from_json_when_nothing_matches_then_zero() {
    let data = dhat_data_with_frames(vec![program_point(16, vec![0, 1, 2])]);
    let entry = Pattern::new("^nothing$").unwrap();
    let tree = try_from_json(data, &EntryPoint::Default, &vec![], Some(&entry)).unwrap();
    assert_eq!(tree.root.data, Data::zero());
}

#[test]
fn test_totals_fit_check() {
    assert!(totals_fit_check(&vec![program_point(16, vec![1]), program_point(32, vec![2])]));
    assert!(!totals_fit_check(&vec![
        program_point(u64::MAX, vec![1]),
        program_point(1, vec![2])
    ]));
    assert!(try_from_json(
        dhat_data(vec![program_point(u64::MAX, vec![1]), program_point(1, vec![2])]),
        &EntryPoint::Disabled,
        &vec![],
        None
    )
    .is_none());
}

#[test]
fn test_frame_de_and_serialize_frame() {
    let frame = Frame::leaf("0x1234", "malloc", "in /usr/lib/some.so");
    assert_eq!(frame.to_string(), "0x1234: malloc (in /usr/lib/some.so)");
    assert_eq!("0x1234: malloc (in /usr/lib/some.so)".parse::<Frame>().unwrap(), frame);
}

#[test]
fn test_frame_de_and_serialize_root() {
    let frame = Frame::Root;
    assert_eq!(frame.to_string(), "[root]");
    assert_eq!("[root]".parse::<Frame>().unwrap(), frame);
}

#[test]
fn test_frame_from_str() {
    let cases = [
        ("0x1234: malloc (in /usr/lib/some.so)", ("0x1234", "malloc", "in /usr/lib/some.so")),
        ("0x12345678: malloc (/usr/lib/some.so)", ("0x12345678", "malloc", "/usr/lib/some.so")),
        ("0x12345678: malloc (in /usr/lib/some.so)", ("0x12345678", "malloc", "in /usr/lib/some.so")),
        (
            "0x40440E3: call_once<(), (dyn core::ops::function::Fn<(), Output=i32> + core::marker::Sync + core::panic::unwind_safe::RefUnwindSafe)> (function.rs:284)",
            (
                "0x40440E3",
                "call_once<(), (dyn core::ops::function::Fn<(), Output=i32> + core::marker::Sync + core::panic::unwind_safe::RefUnwindSafe)>",
                "function.rs:284",
            ),
        ),
    ];
    for (haystack, (addr, func, loc)) in cases {
        let expected = Frame::leaf(addr, func, loc);
        let actual = haystack.parse::<Frame>().unwrap();
        assert_eq!(actual, expected);
    }
}
