//! The internal model of the benchmark harness: the kinds of benchmark functions and the module
//! paths of benchmarks.
//!
//! The benchmark macros store plain function pointers in these enums. Here the callables are
//! type parameters, so that the enums can be used with any kind of function value.
use vstd::prelude::*;

use crate::text::{append_str, decimal, from_chars, owned, to_chars, u64_to_string};

verus! {

/// The function of a library benchmark: one that takes an iteration index or a plain one
#[derive(Debug, Clone, Copy)]
pub enum InternalLibFunctionKind<I, D> {
    Iter(I),
    Default(D),
}

/// The setup or teardown function of a binary benchmark, if any
#[derive(Debug, Clone, Copy, PartialEq, Eq)]
pub enum InternalBinAssistantKind<I, D> {
    Iter(I),
    Default(D),
    Absent,
}

impl<I, D> InternalBinAssistantKind<I, D> {
    /// Return true if there is a setup or teardown function
    pub fn is_some(&self) -> (r: bool)
        ensures
            r == !(self is Absent),
    {
        match self {
            InternalBinAssistantKind::Absent => false,
            _ => true,
        }
    }
}

/// The function of a binary benchmark that builds the command(s) to run
#[derive(Debug, Clone)]
pub enum InternalBinFunctionKind<I, D> {
    Iter(I),
    Default(D),
}

/// A small internal helper to easily create module paths like `file::group::benchmark::id`
#[derive(Debug, PartialEq, Eq, Clone)]
pub struct ModulePath(pub String);

impl ModulePath {
    /// The path as text
    pub open spec fn text(self) -> Seq<char> {
        self.0@
    }

    /// Create a new module path
    pub fn new(path: &str) -> (r: ModulePath)
        ensures
            r.text() == path@,
    {
        ModulePath(owned(path))
    }

    /// This path with `::path` appended
    pub fn join(&self, path: &str) -> (r: ModulePath)
        ensures
            r.text() == self.text() + "::"@ + path@,
    {
        let mut v = to_chars(self.0.as_str());
        append_str(&mut v, "::");
        append_str(&mut v, path);
        ModulePath(from_chars(&v))
    }

    /// The path as text
    pub fn to_string(&self) -> (r: String)
        ensures
            r@ == self.text(),
    {
        owned(self.0.as_str())
    }
}

/// The kind of a benchmark
#[derive(Debug, Clone, Copy, PartialEq, Eq, Structural)]
pub enum BenchmarkKind {
    BinaryBenchmark,
    LibraryBenchmark,
}

impl BenchmarkKind {
    /// The flag of the runner's command line that selects the benchmark kind
    pub fn flag(&self) -> (r: String)
        ensures
            r@ == match self {
                BenchmarkKind::BinaryBenchmark => "--bin-bench"@,
                BenchmarkKind::LibraryBenchmark => "--lib-bench"@,
            },
    {
        match self {
            BenchmarkKind::BinaryBenchmark => owned("--bin-bench"),
            BenchmarkKind::LibraryBenchmark => owned("--lib-bench"),
        }
    }
}

/// The version of the benchmark library that the runner is checked against
pub const LIBRARY_VERSION: &'static str = "0.16.1";

/// The text of each string.
pub open spec fn texts(v: Seq<String>) -> Seq<Seq<char>> {
    v.map_values(|s: String| s@)
}

/// The call of the runner for the benchmarks of a file: the program and its arguments
#[derive(Debug)]
pub struct Runner {
    /// The runner executable
    pub program: String,
    /// The arguments: the library version, the benchmark kind, the package directory and name,
    /// the benchmark file, the module path and the benchmark binary
    pub args: Vec<String>,
    /// The module path of the benchmarks
    pub module: String,
}

impl Runner {
    /// The call of the runner: `exe`, or `gungraun-runner` where none is given, with the
    /// library version, the flag of the benchmark kind, the package directory and name, the
    /// file, the module path and the benchmark binary as arguments
    pub fn new(
        exe: Option<&str>,
        kind: &BenchmarkKind,
        package_dir: &str,
        package_name: &str,
        file: &str,
        module: &str,
        bench_bin: String,
    ) -> (r: Runner)
        ensures
            r.program@ == match exe {
                Some(e) => e@,
                None => "gungraun-runner"@,
            },
            texts(r.args@) == seq![
                LIBRARY_VERSION@,
                match kind {
                    BenchmarkKind::BinaryBenchmark => "--bin-bench"@,
                    BenchmarkKind::LibraryBenchmark => "--lib-bench"@,
                },
                package_dir@,
                package_name@,
                file@,
                module@,
                bench_bin@,
            ],
            r.module@ == module@,
    {
        let program = match exe {
            Some(e) => owned(e),
            None => owned("gungraun-runner"),
        };
        let mut args: Vec<String> = Vec::new();
        args.push(owned(LIBRARY_VERSION));
        args.push(kind.flag());
        args.push(owned(package_dir));
        args.push(owned(package_name));
        args.push(owned(file));
        args.push(owned(module));
        args.push(bench_bin);
        let ghost a = texts(args@);
        assert(a =~= seq![
            LIBRARY_VERSION@,
            match kind {
                BenchmarkKind::BinaryBenchmark => "--bin-bench"@,
                BenchmarkKind::LibraryBenchmark => "--lib-bench"@,
            },
            package_dir@,
            package_name@,
            file@,
            module@,
            args@[6]@,
        ]);
        Runner { program, args, module: owned(module) }
    }

    /// The arguments of the call that hands over the encoded benchmarks: these arguments and
    /// the number of bytes of the encoding, which the runner then reads from its stdin
    pub fn exec_args(&self, encoded_len: usize) -> (r: Vec<String>)
        ensures
            texts(r@) == texts(self.args@).push(decimal(encoded_len as nat)),
    {
        let mut args: Vec<String> = Vec::new();
        let mut i: usize = 0;
        while i < self.args.len()
            invariant
                i <= self.args.len(),
                texts(args@) == texts(self.args@).take(i as int),
            decreases self.args.len() - i,
        {
            let ghost before = args@;
            args.push(owned(self.args[i].as_str()));
            assert(texts(args@) =~= texts(self.args@).take(i + 1)) by {
                assert(args@ == before.push(args@.last()));
                assert(texts(before).len() == before.len());
            }
            i += 1;
        }
        let ghost before = args@;
        args.push(u64_to_string(encoded_len as u64));
        assert(texts(self.args@).take(i as int) =~= texts(self.args@));
        assert(texts(args@) =~= texts(before).push(decimal(encoded_len as nat)));
        args
    }
}

} // verus!
