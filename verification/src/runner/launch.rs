//! How valgrind is launched: the command that runs it (with address space layout randomization
//! switched off where the system allows), and the timing of a delay before a benchmark.
use vstd::prelude::*;

use crate::callgrind::line_views;
use crate::text::owned;

verus! {

/// The operating system the runner was built for, as far as the launch depends on it
#[derive(Debug, Clone, Copy, PartialEq, Eq, Structural)]
pub enum TargetOs {
    Linux,
    FreeBsd,
    Other,
}

/// The command line that starts valgrind: the program and its arguments.
pub open spec fn valgrind_command_spec(allow_aslr: bool, os: TargetOs, arch: Seq<char>) -> Seq<Seq<char>> {
    if allow_aslr {
        seq!["valgrind"@]
    } else {
        match os {
            TargetOs::Linux => seq!["setarch"@, arch, "-R"@, "valgrind"@],
            TargetOs::FreeBsd => seq!["proccontrol"@, "-m"@, "aslr"@, "-s"@, "disable"@, "valgrind"@],
            TargetOs::Other => seq!["valgrind"@],
        }
    }
}

/// The command line that starts valgrind: address space layout randomization could noise up
/// the results a bit, so unless it is allowed it is switched off where possible: with
/// `setarch <arch> -R` on Linux and `proccontrol -m aslr -s disable` on FreeBSD.
pub fn valgrind_command(allow_aslr: bool, os: TargetOs, arch: &str) -> (r: Vec<String>)
    ensures
        line_views(r@) == valgrind_command_spec(allow_aslr, os, arch@),
{
    let r = if allow_aslr {
        vec![owned("valgrind")]
    } else {
        match os {
            TargetOs::Linux => vec![owned("setarch"), owned(arch), owned("-R"), owned("valgrind")],
            TargetOs::FreeBsd => vec![
                owned("proccontrol"),
                owned("-m"),
                owned("aslr"),
                owned("-s"),
                owned("disable"),
                owned("valgrind"),
            ],
            TargetOs::Other => vec![owned("valgrind")],
        }
    };
    assert(line_views(r@) =~= valgrind_command_spec(allow_aslr, os, arch@));
    r
}

/// One millisecond in nanoseconds.
pub const MILLISECOND: u128 = 1_000_000;

/// The poll interval and the timeout of a delay, in nanoseconds.
pub open spec fn delay_timing_spec(elapse: bool, poll: Option<u128>, timeout: Option<u128>) -> (u128, u128) {
    if elapse {
        (0, 0)
    } else {
        let t: int = match timeout {
            Some(t) => if t < 10 * MILLISECOND {
                10 * MILLISECOND
            } else {
                t as int
            },
            None => 600_000 * MILLISECOND,
        };
        let p: int = match poll {
            Some(p) => p as int,
            None => 10 * MILLISECOND,
        };
        if p >= t {
            ((t - 5 * MILLISECOND) as u128, t as u128)
        } else {
            (p as u128, t as u128)
        }
    }
}

/// The poll interval and the timeout of a delay, in nanoseconds: none for a delay that waits
/// for a duration to elapse; else the poll interval defaults to 10ms and the timeout to 600s, a
/// timeout is at least 10ms, and a poll interval that is not shorter than the timeout becomes
/// the timeout less 5ms.
pub fn delay_timing(elapse: bool, poll: Option<u128>, timeout: Option<u128>) -> (r: (u128, u128))
    ensures
        r == delay_timing_spec(elapse, poll, timeout),
        !elapse ==> r.0 < r.1,
{
    if elapse {
        return (0, 0);
    }
    let t: u128 = match timeout {
        Some(t) => {
            if t < 10 * MILLISECOND {
                10 * MILLISECOND
            } else {
                t
            }
        },
        None => 600_000 * MILLISECOND,
    };
    let p: u128 = match poll {
        Some(p) => p,
        None => 10 * MILLISECOND,
    };
    if p >= t {
        (t - 5 * MILLISECOND, t)
    } else {
        (p, t)
    }
}

} // verus!
