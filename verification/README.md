# iai_callgrind_runner

The core of a benchmark runner for Valgrind's tools (callgrind, cachegrind, DHAT), written in
Verus: the parsers of the tools' output files, the models of their costs, the flamegraph stacks,
the command lines handed to valgrind and the benchmark binary, and the checks the runner makes,
each with a contract that Verus proves.

## Layout

- `src/` is the verified library.
  - `api.rs`: the event kinds, streams, raw arguments and tool lists of the benchmark api.
  - `callgrind.rs`: a plain callgrind run of one benchmark function: its output file, the
    counters of the function and the arguments of callgrind.
  - `runner/`: the runner proper.
    - `callgrind/`: the header, summary, sentinel and call-graph parsers of callgrind output
      files, the flamegraph maps and their stacks, the cache summary (hits and estimated
      cycles), the output paths of flamegraphs and the order of output files by target ids.
    - `cachegrind/`: the header and summary parsers of cachegrind output files.
    - `dhat/`: the DHAT log file parser, the json model and the tree of program points.
    - `flamegraph.rs`: stacks and the folded lines of flamegraphs.
    - `args.rs`, `bin_bench.rs`, `common.rs`, `launch.rs`: command-line options, binary
      benchmarks, assistants (setup and teardown), module paths, summaries of all benchmarks and
      the valgrind command.
  - `error.rs`: the errors of the runner and the check of the library version.
  - `internal.rs`: the model of benchmark functions and the call of the runner.
  - `text.rs`, `paths.rs`, `pattern.rs`, `collections.rs`, `ordering.rs`, `util.rs`: text,
    paths, regular expressions (through `regex`), `indexmap` collections and sorting.
- `tests/` runs the library on concrete inputs.
- `app/` is the runner binary around the library: reading files, launching valgrind, writing
  flamegraphs with `inferno`, reading DHAT's json with `serde_json` and printing results.
