use iai_callgrind_runner::api::{Pipe, Stdin, StdinSource, Stdio, Stream};
use iai_callgrind_runner::runner::launch::{delay_timing, valgrind_command, TargetOs, MILLISECOND};

#[test]
fn valgrind_command_with_aslr() {
    assert_eq!(valgrind_command(true, TargetOs::Linux, "x86_64"), vec!["valgrind".to_owned()]);
}

#[test]
fn valgrind_command_without_aslr() {
    assert_eq!(
        valgrind_command(false, TargetOs::Linux, "x86_64"),
        vec!["setarch", "x86_64", "-R", "valgrind"]
            .into_iter()
            .map(str::to_owned)
            .collect::<Vec<_>>()
    );
    assert_eq!(
        valgrind_command(false, TargetOs::FreeBsd, "x86_64"),
        vec!["proccontrol", "-m", "aslr", "-s", "disable", "valgrind"]
            .into_iter()
            .map(str::to_owned)
            .collect::<Vec<_>>()
    );
    assert_eq!(
        valgrind_command(false, TargetOs::Other, "x86_64"),
        vec!["valgrind".to_owned()]
    );
}

#[test]
fn delay_timing_defaults_and_limits() {
    assert_eq!(delay_timing(true, Some(5), Some(5)), (0, 0));
    assert_eq!(
        delay_timing(false, None, None),
        (10 * MILLISECOND, 600_000 * MILLISECOND)
    );
    assert_eq!(
        delay_timing(false, Some(MILLISECOND), Some(MILLISECOND)),
        (MILLISECOND, 10 * MILLISECOND)
    );
    assert_eq!(
        delay_timing(false, Some(12 * MILLISECOND), Some(MILLISECOND)),
        (5 * MILLISECOND, 10 * MILLISECOND)
    );
    assert_eq!(
        delay_timing(false, Some(30 * MILLISECOND), Some(20 * MILLISECOND)),
        (15 * MILLISECOND, 20 * MILLISECOND)
    );
    assert_eq!(
        delay_timing(false, Some(2 * MILLISECOND), Some(20 * MILLISECOND)),
        (2 * MILLISECOND, 20 * MILLISECOND)
    );
}

#[test]
fn stdin_sources() {
    assert_eq!(Stdin::Setup(Pipe::Stdout).source(true), StdinSource::SetupStdout);
    assert_eq!(Stdin::Setup(Pipe::Stderr).source(true), StdinSource::SetupStderr);
    assert_eq!(
        Stdin::Setup(Pipe::Stderr).source(false),
        StdinSource::Stdio(Stdio::Pipe)
    );
    assert_eq!(
        Stdin::File("input.txt".to_owned()).source(true),
        StdinSource::Stdio(Stdio::File("input.txt".to_owned()))
    );
    assert_eq!(Stdin::Null.source(false), StdinSource::Stdio(Stdio::Null));
    assert_eq!(Stdin::Inherit.source(false), StdinSource::Stdio(Stdio::Inherit));
}

#[test]
fn stream_names() {
    assert_eq!(Stream::Stdin.to_string(), "stdin");
    assert_eq!(Stream::Stdout.to_string(), "stdout");
    assert_eq!(Stream::Stderr.to_string(), "stderr");
}
