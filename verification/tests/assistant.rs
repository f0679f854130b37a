use iai_callgrind_runner::api::Pipe;
use iai_callgrind_runner::internal::{BenchmarkKind, Runner};
use iai_callgrind_runner::runner::args::NoCapture;
use iai_callgrind_runner::api::{Stdin, ValgrindTool};
use iai_callgrind_runner::runner::bin_bench::{
    bench_assistants, bench_name, command_stdin, default_tool, env_clear, BenchmarkMode, Command,
};
use iai_callgrind_runner::runner::common::ModulePath;
use iai_callgrind_runner::runner::common::{Assistant, AssistantKind, AssistantStream};

fn envs() -> Vec<(String, String)> {
    vec![("KEY".to_owned(), "value".to_owned())]
}

#[test]
fn main_assistant_runs_with_kind_only() {
    let assistant = Assistant::new_main_assistant(AssistantKind::Setup, envs(), false);
    let launch = assistant.launch(false, NoCapture::False).unwrap();
    assert_eq!(launch.args, vec!["--iai-run".to_owned(), "setup".to_owned()]);
    assert_eq!(launch.envs, envs());
    assert_eq!(launch.stdout, AssistantStream::Default);
    assert_eq!(launch.stderr, AssistantStream::Default);
    assert!(!launch.spawn);
    assert!(launch.capture);
}

#[test]
fn group_assistant_has_group_name() {
    let assistant = Assistant::new_group_assistant(AssistantKind::Teardown, "my_group", vec![], true);
    let launch = assistant.launch(false, NoCapture::True).unwrap();
    assert_eq!(
        launch.args,
        vec!["--iai-run".to_owned(), "my_group".to_owned(), "teardown".to_owned()]
    );
    assert!(launch.spawn);
    assert!(!launch.capture);
}

#[test]
fn bench_assistant_with_indices_and_pipe() {
    let assistant = Assistant::new_bench_assistant(
        AssistantKind::Setup,
        "group",
        (3, 12),
        Some(Pipe::Stdout),
        vec![],
        false,
    );
    let launch = assistant.launch(false, NoCapture::Stdout).unwrap();
    assert_eq!(
        launch.args,
        vec![
            "--iai-run".to_owned(),
            "group".to_owned(),
            "setup".to_owned(),
            "3".to_owned(),
            "12".to_owned()
        ]
    );
    assert_eq!(launch.stdout, AssistantStream::Piped);
    assert_eq!(launch.stderr, AssistantStream::Null);
    assert!(launch.spawn);
    assert!(!launch.capture);
}

#[test]
fn assistant_streams_follow_nocapture() {
    let assistant = Assistant::new_bench_assistant(
        AssistantKind::Setup,
        "group",
        (0, 0),
        Some(Pipe::Stderr),
        vec![],
        false,
    );
    let launch = assistant.launch(false, NoCapture::Stderr).unwrap();
    assert_eq!(launch.stdout, AssistantStream::Null);
    assert_eq!(launch.stderr, AssistantStream::Piped);

    let plain = Assistant::new_main_assistant(AssistantKind::Setup, vec![], false);
    let launch = plain.launch(false, NoCapture::Stderr).unwrap();
    assert_eq!(launch.stdout, AssistantStream::Null);
    assert_eq!(launch.stderr, AssistantStream::Inherit);
}

#[test]
fn assistant_not_run_when_baseline_is_loaded() {
    let assistant = Assistant::new_main_assistant(AssistantKind::Setup, envs(), false);
    assert!(assistant.launch(true, NoCapture::False).is_none());
}

#[test]
fn runner_call_of_library_benchmarks() {
    let runner = Runner::new(
        None,
        &BenchmarkKind::LibraryBenchmark,
        "/pkg",
        "my_pkg",
        "benches/my_bench.rs",
        "my_bench",
        "/target/release/deps/my_bench-123".to_owned(),
    );
    assert_eq!(runner.program, "gungraun-runner");
    assert_eq!(
        runner.args,
        vec![
            "0.16.1".to_owned(),
            "--lib-bench".to_owned(),
            "/pkg".to_owned(),
            "my_pkg".to_owned(),
            "benches/my_bench.rs".to_owned(),
            "my_bench".to_owned(),
            "/target/release/deps/my_bench-123".to_owned(),
        ]
    );
    let args = runner.exec_args(1234);
    assert_eq!(args.len(), 8);
    assert_eq!(args[7], "1234");
}

#[test]
fn runner_call_with_own_executable() {
    let runner = Runner::new(
        Some("/bin/runner"),
        &BenchmarkKind::BinaryBenchmark,
        "d",
        "n",
        "f",
        "m",
        "b".to_owned(),
    );
    assert_eq!(runner.program, "/bin/runner");
    assert_eq!(runner.args[1], "--bin-bench");
    assert_eq!(runner.module, "m");
}

#[test]
fn benchmark_mode_of_arguments() {
    let save = BenchmarkMode::from_args(Some("s".to_owned()), Some("l".to_owned()), None);
    assert_eq!(save.baselines(), (Some("s".to_owned()), Some("s".to_owned())));

    let load = BenchmarkMode::from_args(None, Some("l".to_owned()), Some("b".to_owned()));
    assert_eq!(load.baselines(), (Some("l".to_owned()), Some("b".to_owned())));

    let named = BenchmarkMode::from_args(None, None, Some("b".to_owned()));
    assert_eq!(named.baselines(), (None, Some("b".to_owned())));

    let old = BenchmarkMode::from_args(None, None, None);
    assert_eq!(old.baselines(), (None, None));
}

#[test]
fn command_when_empty_path_then_error() {
    let module = ModulePath::new("file::group::bench");
    let error = Command::new(&module, String::new(), vec![]).unwrap_err();
    assert_eq!(error, "file::group::bench: Empty path in command");
    let command = Command::new(&module, "/bin/echo".to_owned(), vec!["a".to_owned()]).unwrap();
    assert_eq!(command.path, "/bin/echo");
    assert_eq!(command.args, vec!["a".to_owned()]);
}

#[test]
fn bench_name_with_and_without_id() {
    assert_eq!(bench_name("my_bench", Some("case_1")), "my_bench.case_1");
    assert_eq!(bench_name("my_bench", None), "my_bench");
}

#[test]
fn binary_benchmark_default_tool_precedence() {
    assert_eq!(
        default_tool(Some(ValgrindTool::DHAT), Some(ValgrindTool::Massif), ValgrindTool::Cachegrind),
        ValgrindTool::DHAT
    );
    assert_eq!(
        default_tool(None, Some(ValgrindTool::Massif), ValgrindTool::Cachegrind),
        ValgrindTool::Massif
    );
    assert_eq!(default_tool(None, None, ValgrindTool::Cachegrind), ValgrindTool::Cachegrind);
}

#[test]
fn binary_benchmark_stdin_defaults_to_pipe() {
    assert_eq!(command_stdin(None), Stdin::Pipe);
    assert_eq!(command_stdin(Some(Stdin::Null)), Stdin::Null);
}

#[test]
fn binary_benchmark_assistants() {
    let (setup, teardown) = bench_assistants(
        true,
        true,
        "group",
        (1, 2),
        &Some(Stdin::Setup(Pipe::Stderr)),
        &envs(),
        Some(true),
    );
    let setup = setup.unwrap();
    assert_eq!(setup.kind, AssistantKind::Setup);
    assert_eq!(setup.pipe, Some(Pipe::Stderr));
    assert!(setup.run_parallel);
    assert_eq!(setup.indices, Some((1, 2)));
    let teardown = teardown.unwrap();
    assert_eq!(teardown.kind, AssistantKind::Teardown);
    assert_eq!(teardown.pipe, None);
    assert!(!teardown.run_parallel);
    assert_eq!(teardown.envs, envs());

    let (setup, teardown) = bench_assistants(false, false, "group", (0, 0), &None, &vec![], None);
    assert!(setup.is_none() && teardown.is_none());
}

#[test]
fn binary_benchmark_env_clear_defaults_to_true() {
    assert!(env_clear(None));
    assert!(!env_clear(Some(false)));
}
