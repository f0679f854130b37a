//! The errors of the runner with their messages, and the check that the runner and the library
//! have the same version.
use vstd::prelude::*;

use crate::runner::common::ModulePath;
use crate::text::{append_str, from_chars, owned, to_chars};

verus! {

/// The outcome of a comparison of two version numbers, as `version_compare` names it
#[derive(Debug, Clone, Copy, PartialEq, Eq, Structural)]
pub enum Comparison {
    /// Equal
    Eq,
    /// Not equal
    Ne,
    /// Less than
    Lt,
    /// Less or equal
    Le,
    /// Greater or equal
    Ge,
    /// Greater than
    Gt,
}

/// What `version_compare::compare` returns for two version texts: `None` where one of them is
/// no version number.
pub uninterp spec fn version_order(a: Seq<char>, b: Seq<char>) -> Option<Comparison>;

/// `version_compare::compare`: compare version `a` to version `b`. The crate documents that only
/// `Eq`, `Lt` and `Gt` are returned; an error (here `None`) where a text is no version number.
#[verifier::external_body]
fn compare_versions(a: &str, b: &str) -> (r: Option<Comparison>)
    ensures
        r == version_order(a@, b@),
        r matches Some(c) ==> c == Comparison::Eq || c == Comparison::Lt || c == Comparison::Gt,
{
    match version_compare::compare(a, b) {
        Ok(version_compare::Cmp::Eq) => Some(Comparison::Eq),
        Ok(version_compare::Cmp::Ne) => Some(Comparison::Ne),
        Ok(version_compare::Cmp::Lt) => Some(Comparison::Lt),
        Ok(version_compare::Cmp::Le) => Some(Comparison::Le),
        Ok(version_compare::Cmp::Ge) => Some(Comparison::Ge),
        Ok(version_compare::Cmp::Gt) => Some(Comparison::Gt),
        Err(()) => None,
    }
}

/// The errors of the runner
#[derive(Debug, Clone, PartialEq, Eq)]
pub enum IaiCallgrindError {
    /// The runner could not start
    InitError(String),
    /// The versions of the runner and of the library differ: the comparison, the version of the
    /// runner and that of the library
    VersionMismatch(Comparison, String, String),
    /// An executable could not be launched
    LaunchError(String, String),
    /// A process failed: the process, its exit code, or else the signal that ended it
    ProcessError(String, Option<i32>, Option<i32>),
    /// A callgrind argument that must be `yes` or `no`: the option and its value
    InvalidCallgrindBoolArgument(String, String),
    /// A file could not be parsed: the path and the reason
    ParseError(String, String),
    /// The performance regressed; `true` if that is fatal
    RegressionError(bool),
    /// An environment variable could not be parsed: the variable and the reason
    EnvironmentVariableError(String, String),
    /// The sandbox failed
    SandboxError(String),
    /// A benchmark failed: the tool, the benchmark and the reason
    BenchmarkError(String, ModulePath, String),
}

/// The message of an error; `runner_version` is the version of the runner.
pub open spec fn error_message(e: IaiCallgrindError, runner_version: Seq<char>) -> Seq<char> {
    match e {
        IaiCallgrindError::InitError(message) => "Failed to initialize iai-callgrind-runner: "@ + message@
            + "\n\nDetected version of iai-callgrind-runner is "@ + runner_version
            + ". This error can be caused by a version mismatch between iai-callgrind and iai-callgrind-runner. If you updated the library (iai-callgrind) in your Cargo.toml file, the binary (iai-callgrind-runner) needs to be updated to the same version and vice versa."@,
        IaiCallgrindError::VersionMismatch(c, runner, library) => match c {
            Comparison::Lt => "iai-callgrind-runner ("@ + runner@ + ") is older than iai-callgrind ("@ + library@
                + "). Please update iai-callgrind-runner by calling 'cargo install --version "@ + library@
                + " iai-callgrind-runner'"@,
            Comparison::Gt => "iai-callgrind-runner ("@ + runner@ + ") is newer than iai-callgrind ("@ + library@
                + "). Please update iai-callgrind to '"@ + runner@ + "' in your Cargo.toml file"@,
            _ => "No version information found for iai-callgrind but iai-callgrind-runner ("@ + runner@
                + ") is >= '0.3.0'. Please update iai-callgrind to '"@ + runner@ + "' in your Cargo.toml file"@,
        },
        IaiCallgrindError::LaunchError(exec, message) => "Error launching '"@ + exec@ + "': "@ + message@,
        IaiCallgrindError::ProcessError(process, code, signal) => match (code, signal) {
            (Some(c), _) => "Error running '"@ + process@ + "': Exit code was: '"@ + int_text(c as int) + "'"@,
            (None, Some(s)) => "Error running '"@ + process@ + "': Terminated by a signal '"@ + int_text(s as int)
                + "'"@,
            (None, None) => "Error running '"@ + process@ + "': Terminated abnormally"@,
        },
        IaiCallgrindError::InvalidCallgrindBoolArgument(option, value) => "Invalid callgrind argument for "@ + option@ + ": '"@
            + value@ + "'. Valid values are 'yes' or 'no'"@,
        IaiCallgrindError::ParseError(path, message) => "Error parsing file '"@ + path@ + "': "@ + message@,
        IaiCallgrindError::RegressionError(fatal) => if fatal {
            "Performance has regressed. Aborting ..."@
        } else {
            "Performance has regressed."@
        },
        IaiCallgrindError::EnvironmentVariableError(var, reason) => "Failed parsing environment variable "@ + var@ + ": "@
            + reason@,
        IaiCallgrindError::SandboxError(message) => "Error in sandbox: "@ + message@,
        IaiCallgrindError::BenchmarkError(tool, bench_path, message) => "Error in "@ + tool@ + " benchmark "@
            + bench_path.text() + ": "@ + message@,
    }
}

/// The decimal text of an integer, with a `-` where it is negative.
pub open spec fn int_text(n: int) -> Seq<char> {
    if n < 0 {
        seq!['-'] + crate::text::decimal((-n) as nat)
    } else {
        crate::text::decimal(n as nat)
    }
}

/// `i32::to_string`
pub(crate) fn i32_to_chars(n: i32) -> (r: Vec<char>)
    ensures
        r@ == int_text(n as int),
{
    if n < 0 {
        let m: u64 = (0i64 - (n as i64)) as u64;
        let mut r: Vec<char> = Vec::new();
        r.push('-');
        let d = crate::text::u64_to_chars(m);
        crate::text::append_chars(&mut r, &d);
        assert(r@ =~= seq!['-'] + crate::text::decimal((-(n as int)) as nat));
        r
    } else {
        crate::text::u64_to_chars(n as u64)
    }
}

impl IaiCallgrindError {
    /// The message of this error; `runner_version` is the version of the runner.
    pub fn message(&self, runner_version: &str) -> (r: String)
        ensures
            r@ == error_message(*self, runner_version@),
    {
        let mut c: Vec<char> = Vec::new();
        match self {
            IaiCallgrindError::InitError(message) => {
                append_str(&mut c, "Failed to initialize iai-callgrind-runner: ");
                append_str(&mut c, message.as_str());
                append_str(&mut c, "\n\nDetected version of iai-callgrind-runner is ");
                append_str(&mut c, runner_version);
                append_str(
                    &mut c,
                    ". This error can be caused by a version mismatch between iai-callgrind and iai-callgrind-runner. If you updated the library (iai-callgrind) in your Cargo.toml file, the binary (iai-callgrind-runner) needs to be updated to the same version and vice versa.",
                );
            },
            IaiCallgrindError::VersionMismatch(order, runner, library) => {
                match order {
                    Comparison::Lt => {
                        append_str(&mut c, "iai-callgrind-runner (");
                        append_str(&mut c, runner.as_str());
                        append_str(&mut c, ") is older than iai-callgrind (");
                        append_str(&mut c, library.as_str());
                        append_str(&mut c, "). Please update iai-callgrind-runner by calling 'cargo install --version ");
                        append_str(&mut c, library.as_str());
                        append_str(&mut c, " iai-callgrind-runner'");
                    },
                    Comparison::Gt => {
                        append_str(&mut c, "iai-callgrind-runner (");
                        append_str(&mut c, runner.as_str());
                        append_str(&mut c, ") is newer than iai-callgrind (");
                        append_str(&mut c, library.as_str());
                        append_str(&mut c, "). Please update iai-callgrind to '");
                        append_str(&mut c, runner.as_str());
                        append_str(&mut c, "' in your Cargo.toml file");
                    },
                    _ => {
                        append_str(&mut c, "No version information found for iai-callgrind but iai-callgrind-runner (");
                        append_str(&mut c, runner.as_str());
                        append_str(&mut c, ") is >= '0.3.0'. Please update iai-callgrind to '");
                        append_str(&mut c, runner.as_str());
                        append_str(&mut c, "' in your Cargo.toml file");
                    },
                }
            },
            IaiCallgrindError::LaunchError(exec, message) => {
                append_str(&mut c, "Error launching '");
                append_str(&mut c, exec.as_str());
                append_str(&mut c, "': ");
                append_str(&mut c, message.as_str());
            },
            IaiCallgrindError::ProcessError(process, code, signal) => {
                append_str(&mut c, "Error running '");
                append_str(&mut c, process.as_str());
                match (code, signal) {
                    (Some(n), _) => {
                        append_str(&mut c, "': Exit code was: '");
                        let d = i32_to_chars(*n);
                        crate::text::append_chars(&mut c, &d);
                        append_str(&mut c, "'");
                    },
                    (None, Some(s)) => {
                        append_str(&mut c, "': Terminated by a signal '");
                        let d = i32_to_chars(*s);
                        crate::text::append_chars(&mut c, &d);
                        append_str(&mut c, "'");
                    },
                    (None, None) => {
                        append_str(&mut c, "': Terminated abnormally");
                    },
                }
            },
            IaiCallgrindError::InvalidCallgrindBoolArgument(option, value) => {
                append_str(&mut c, "Invalid callgrind argument for ");
                append_str(&mut c, option.as_str());
                append_str(&mut c, ": '");
                append_str(&mut c, value.as_str());
                append_str(&mut c, "'. Valid values are 'yes' or 'no'");
            },
            IaiCallgrindError::ParseError(path, message) => {
                append_str(&mut c, "Error parsing file '");
                append_str(&mut c, path.as_str());
                append_str(&mut c, "': ");
                append_str(&mut c, message.as_str());
            },
            IaiCallgrindError::RegressionError(fatal) => {
                if *fatal {
                    append_str(&mut c, "Performance has regressed. Aborting ...");
                } else {
                    append_str(&mut c, "Performance has regressed.");
                }
            },
            IaiCallgrindError::EnvironmentVariableError(var, reason) => {
                append_str(&mut c, "Failed parsing environment variable ");
                append_str(&mut c, var.as_str());
                append_str(&mut c, ": ");
                append_str(&mut c, reason.as_str());
            },
            IaiCallgrindError::SandboxError(message) => {
                append_str(&mut c, "Error in sandbox: ");
                append_str(&mut c, message.as_str());
            },
            IaiCallgrindError::BenchmarkError(tool, bench_path, message) => {
                append_str(&mut c, "Error in ");
                append_str(&mut c, tool.as_str());
                append_str(&mut c, " benchmark ");
                append_str(&mut c, bench_path.as_str());
                append_str(&mut c, ": ");
                append_str(&mut c, message.as_str());
            },
        }
        assert(c@ =~= error_message(*self, runner_version@));
        from_chars(&c)
    }
}

/// The comparison a version mismatch reports, given the outcome of the comparison of the
/// runner's version to the library's: none where they are equal (or the outcome is another than
/// `version_compare` returns), `Ne` where a version could not be read.
pub open spec fn mismatch(order: Option<Comparison>) -> Option<Comparison> {
    match order {
        Some(Comparison::Lt) => Some(Comparison::Lt),
        Some(Comparison::Gt) => Some(Comparison::Gt),
        None => Some(Comparison::Ne),
        _ => None,
    }
}

/// The verdict on the versions of the runner and of the library, given the outcome of the
/// comparison of the runner's version to the library's: a version mismatch unless they are
/// equal. The library sends its version from version 0.3.0 on; where it could not be read, that
/// is a mismatch too.
pub fn version_verdict(order: Option<Comparison>, runner_version: &str, library_version: &str) -> (r: Result<(), IaiCallgrindError>)
    ensures
        match mismatch(order) {
            Some(c) => r matches Err(IaiCallgrindError::VersionMismatch(k, a, b)) && k == c && a@ == runner_version@ && b@
                == library_version@,
            None => r is Ok,
        },
{
    match order {
        Some(Comparison::Lt) => Err(IaiCallgrindError::VersionMismatch(Comparison::Lt, owned(runner_version), owned(library_version))),
        Some(Comparison::Gt) => Err(IaiCallgrindError::VersionMismatch(Comparison::Gt, owned(runner_version), owned(library_version))),
        None => Err(IaiCallgrindError::VersionMismatch(Comparison::Ne, owned(runner_version), owned(library_version))),
        _ => Ok(()),
    }
}

/// Check that the runner and the library have the same version: compare the versions with
/// `version_compare` and give the verdict of [`version_verdict`] on the outcome.
pub fn check_versions(runner_version: &str, library_version: &str) -> (r: Result<(), IaiCallgrindError>)
    ensures
        match mismatch(version_order(runner_version@, library_version@)) {
            Some(c) => r matches Err(IaiCallgrindError::VersionMismatch(k, a, b)) && k == c && a@ == runner_version@ && b@
                == library_version@,
            None => r is Ok,
        },
{
    let order = compare_versions(runner_version, library_version);
    version_verdict(order, runner_version, library_version)
}

} // verus!
