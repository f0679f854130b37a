//! Binary benchmarks: how they run (against the previous run or a named baseline, saving a
//! baseline, or loading one), their commands and their names.
use vstd::prelude::*;

use crate::api::{Pipe, Stdin, ValgrindTool};
use crate::runner::common::{copy_pairs, pair_views, Assistant, AssistantKind, ModulePath};
use crate::runner::tool::BaselineKind;
use crate::text::{append_str, from_chars, owned, to_chars};

verus! {

/// The way the benchmarks run, chosen by the command-line arguments
#[derive(Debug)]
pub enum BenchmarkMode {
    /// Compare with the previous run or a named baseline
    Baseline(BaselineKind),
    /// Save the run as a named baseline
    SaveBaseline(String),
    /// Load a saved baseline and compare it with another one
    LoadBaseline {
        /// The baseline that is loaded as the new run
        loaded_baseline: String,
        /// The baseline it is compared with
        baseline: String,
    },
}

/// The view of a baseline kind.
pub open spec fn baseline_text(kind: BaselineKind) -> Option<Seq<char>> {
    match kind {
        BaselineKind::Old => None,
        BaselineKind::Name(n) => Some(n@),
    }
}

/// The view of an optional string.
pub open spec fn opt_str(s: Option<String>) -> Option<Seq<char>> {
    match s {
        Some(x) => Some(x@),
        None => None,
    }
}

impl BenchmarkMode {
    /// The mode of the arguments `--save-baseline`, `--load-baseline` and `--baseline`: saving
    /// takes precedence over loading, which compares with `--baseline`; otherwise the run is
    /// compared with `--baseline` or, without it, with the previous run. Loading a baseline
    /// asks for `--baseline` too.
    pub fn from_args(
        save_baseline: Option<String>,
        load_baseline: Option<String>,
        baseline: Option<String>,
    ) -> (r: BenchmarkMode)
        requires
            save_baseline is None && load_baseline is Some ==> baseline is Some,
        ensures
            match save_baseline {
                Some(s) => r matches BenchmarkMode::SaveBaseline(n) && n@ == s@,
                None => match load_baseline {
                    Some(l) => r matches BenchmarkMode::LoadBaseline { loaded_baseline, baseline: b }
                        && loaded_baseline@ == l@ && Some(b@) == opt_str(baseline),
                    None => r matches BenchmarkMode::Baseline(k) && baseline_text(k) == opt_str(
                        baseline,
                    ),
                },
            },
    {
        match save_baseline {
            Some(s) => BenchmarkMode::SaveBaseline(s),
            None => match load_baseline {
                Some(l) => match baseline {
                    Some(b) => BenchmarkMode::LoadBaseline { loaded_baseline: l, baseline: b },
                    None => BenchmarkMode::Baseline(BaselineKind::Old),
                },
                None => match baseline {
                    Some(b) => BenchmarkMode::Baseline(BaselineKind::Name(b)),
                    None => BenchmarkMode::Baseline(BaselineKind::Old),
                },
            },
        }
    }

    /// The names of the baselines of the summary: of the new run and of the one it is compared
    /// with. A saved baseline is both; a loaded one is compared with `--baseline`; a plain run
    /// has no name, and a named baseline only for the comparison.
    pub fn baselines(&self) -> (r: (Option<String>, Option<String>))
        ensures
            (opt_str(r.0), opt_str(r.1)) == match self {
                BenchmarkMode::Baseline(k) => (None, baseline_text(*k)),
                BenchmarkMode::SaveBaseline(n) => (Some(n@), Some(n@)),
                BenchmarkMode::LoadBaseline { loaded_baseline, baseline } => (
                    Some(loaded_baseline@),
                    Some(baseline@),
                ),
            },
    {
        match self {
            BenchmarkMode::Baseline(BaselineKind::Old) => (None, None),
            BenchmarkMode::Baseline(BaselineKind::Name(n)) => (None, Some(owned(n.as_str()))),
            BenchmarkMode::SaveBaseline(n) => (Some(owned(n.as_str())), Some(owned(n.as_str()))),
            BenchmarkMode::LoadBaseline { loaded_baseline, baseline } => (
                Some(owned(loaded_baseline.as_str())),
                Some(owned(baseline.as_str())),
            ),
        }
    }
}

/// The command of a binary benchmark: the executable and its arguments
#[derive(Debug)]
pub struct Command {
    /// The arguments handed to the executable
    pub args: Vec<String>,
    /// The path of the executable
    pub path: String,
}

impl Command {
    /// The command of the benchmark at `module`; an error `<module>: Empty path in command`
    /// where the path is empty
    pub fn new(module: &ModulePath, path: String, args: Vec<String>) -> (r: Result<Command, String>)
        ensures
            path@.len() == 0 <==> r is Err,
            r matches Err(e) ==> e@ == module.text() + ": Empty path in command"@,
            r matches Ok(c) ==> c.path == path && c.args == args,
    {
        if path.as_str().unicode_len() == 0 {
            let mut c = to_chars(module.as_str());
            append_str(&mut c, ": Empty path in command");
            return Err(from_chars(&c));
        }
        Ok(Command { args, path })
    }
}

/// The name of a benchmark: its function, with `.<id>` appended where it has an id.
pub open spec fn bench_name_spec(function_name: Seq<char>, id: Option<Seq<char>>) -> Seq<char> {
    match id {
        Some(i) => function_name + "."@ + i,
        None => function_name,
    }
}

/// The name of a benchmark: its function, with `.<id>` appended where it has an id
pub fn bench_name(function_name: &str, id: Option<&str>) -> (r: String)
    ensures
        r@ == bench_name_spec(function_name@, match id {
            Some(i) => Some(i@),
            None => None,
        }),
{
    match id {
        Some(i) => {
            let mut c = to_chars(function_name);
            append_str(&mut c, ".");
            append_str(&mut c, i);
            from_chars(&c)
        },
        None => owned(function_name),
    }
}

/// The tool a binary benchmark runs by default: the one of the command line, else the one of
/// the benchmark's configuration, else `default`
pub fn default_tool(
    command_line: Option<ValgrindTool>,
    config: Option<ValgrindTool>,
    default: ValgrindTool,
) -> (r: ValgrindTool)
    ensures
        r == match command_line {
            Some(t) => t,
            None => match config {
                Some(t) => t,
                None => default,
            },
        },
{
    match command_line {
        Some(t) => t,
        None => match config {
            Some(t) => t,
            None => default,
        },
    }
}

/// The stdin of a binary benchmark's command: the one it names, else a pipe
pub fn command_stdin(stdin: Option<Stdin>) -> (r: Stdin)
    ensures
        r == match stdin {
            Some(s) => s,
            None => Stdin::Pipe,
        },
{
    match stdin {
        Some(s) => s,
        None => Stdin::Pipe,
    }
}

/// The stream of the setup that is piped into the command, where its stdin names one.
pub open spec fn setup_pipe(stdin: Option<Stdin>) -> Option<Pipe> {
    match stdin {
        Some(Stdin::Setup(p)) => Some(p),
        _ => None,
    }
}

/// The setup and teardown functions of the binary benchmark at `indices` of the group
/// `group_name`, where it has them: the setup gets the stream that the command's stdin pipes
/// from it and runs in parallel where the configuration says so; the teardown pipes nothing
/// and never runs in parallel. Both get the environment `envs`.
pub fn bench_assistants(
    has_setup: bool,
    has_teardown: bool,
    group_name: &str,
    indices: (usize, usize),
    stdin: &Option<Stdin>,
    envs: &Vec<(String, String)>,
    setup_parallel: Option<bool>,
) -> (r: (Option<Assistant>, Option<Assistant>))
    ensures
        has_setup <==> r.0 is Some,
        has_teardown <==> r.1 is Some,
        r.0 matches Some(a) ==> {
            &&& a.kind == AssistantKind::Setup
            &&& a.group_name matches Some(g) && g@ == group_name@
            &&& a.indices == Some(indices)
            &&& a.pipe == setup_pipe(*stdin)
            &&& pair_views(a.envs@) == pair_views(envs@)
            &&& a.run_parallel == match setup_parallel {
                Some(b) => b,
                None => false,
            }
        },
        r.1 matches Some(a) ==> {
            &&& a.kind == AssistantKind::Teardown
            &&& a.group_name matches Some(g) && g@ == group_name@
            &&& a.indices == Some(indices)
            &&& a.pipe is None
            &&& pair_views(a.envs@) == pair_views(envs@)
            &&& !a.run_parallel
        },
{
    let setup = if has_setup {
        let pipe = match stdin {
            Some(Stdin::Setup(p)) => Some(*p),
            _ => None,
        };
        let parallel = match setup_parallel {
            Some(b) => b,
            None => false,
        };
        Some(
            Assistant::new_bench_assistant(
                AssistantKind::Setup,
                group_name,
                indices,
                pipe,
                copy_pairs(envs),
                parallel,
            ),
        )
    } else {
        None
    };
    let teardown = if has_teardown {
        Some(
            Assistant::new_bench_assistant(
                AssistantKind::Teardown,
                group_name,
                indices,
                None,
                copy_pairs(envs),
                false,
            ),
        )
    } else {
        None
    };
    (setup, teardown)
}

/// Whether the environment of a binary benchmark's command is cleared: as its configuration
/// says, and by default it is
pub fn env_clear(config: Option<bool>) -> (r: bool)
    ensures
        r == match config {
            Some(b) => b,
            None => true,
        },
{
    match config {
        Some(b) => b,
        None => true,
    }
}

} // verus!
