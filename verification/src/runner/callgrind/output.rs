//! The output file of a callgrind run: the positions mode, the summary line and the costs of a
//! benchmark function.
use vstd::prelude::*;

use crate::callgrind::{counter_ints, line_views, token_views};
use crate::paths::{
    collect_path, file_name_of, join, last_index_of, path_join, path_of, path_with_extension,
    sanitize_file_name, sanitized_file_name, with_extension,
};
use crate::runner::common::{segments, split_segments, string_views};
use crate::util::{truncate_str_utf8, truncated_utf8};
use crate::text::{
    append_str, eq_str, from_chars, owned, parse_u64, parse_u64_exec, starts_with,
    starts_with_chars, strip_prefix, strip_prefix_exec, to_chars, trim, trim_chars, trim_start,
    trim_start_chars, words, words_exec,
};

verus! {

/// The position columns of the cost lines
#[derive(Debug, Clone, Copy, PartialEq, Eq, Structural)]
pub enum PositionsMode {
    Instr,
    Line,
    InstrLine,
}

/// The positions mode named by a `positions:` line.
pub open spec fn positions_mode_of(line: Seq<char>) -> Option<PositionsMode> {
    match strip_prefix(trim(line), "positions: "@) {
        Some(rest) => if rest == "instr line"@ || rest == "line instr"@ {
            Some(PositionsMode::InstrLine)
        } else if rest == "instr"@ {
            Some(PositionsMode::Instr)
        } else if rest == "line"@ {
            Some(PositionsMode::Line)
        } else {
            None
        },
        None => None,
    }
}

impl PositionsMode {
    /// The number of position columns of a cost line
    pub open spec fn columns(self) -> int {
        match self {
            PositionsMode::InstrLine => 2,
            _ => 1,
        }
    }

    /// The positions mode of a `positions:` line: `instr`, `line` or both
    pub fn from_positions_line(line: &str) -> (r: Option<PositionsMode>)
        ensures
            r == positions_mode_of(line@),
    {
        let t = trim_chars(&to_chars(line));
        match strip_prefix_exec(&t, "positions: ") {
            Some(rest) => {
                if eq_str(&rest, "instr line") || eq_str(&rest, "line instr") {
                    Some(PositionsMode::InstrLine)
                } else if eq_str(&rest, "instr") {
                    Some(PositionsMode::Instr)
                } else if eq_str(&rest, "line") {
                    Some(PositionsMode::Line)
                } else {
                    None
                }
            },
            None => None,
        }
    }
}

/// The sentinel of a benchmark function: the prefix `fn=<path>` of its record
#[derive(Debug)]
pub struct Sentinel(pub String);

impl Sentinel {
    /// The sentinel of the function `value`
    pub fn new(value: &str) -> (r: Sentinel)
        ensures
            r.0@ == "fn="@ + value@,
    {
        let mut v = to_chars("fn=");
        append_str(&mut v, value);
        Sentinel(from_chars(&v))
    }

    /// The sentinel of the function `module::function`
    pub fn from_path(module: &str, function: &str) -> (r: Sentinel)
        ensures
            r.0@ == "fn="@ + module@ + "::"@ + function@,
    {
        let mut v = to_chars("fn=");
        append_str(&mut v, module);
        append_str(&mut v, "::");
        append_str(&mut v, function);
        Sentinel(from_chars(&v))
    }

    /// The sentinel as text
    pub fn as_str(&self) -> (r: &str)
        ensures
            r@ == self.0@,
    {
        self.0.as_str()
    }
}

/// The counters of the cache simulation of callgrind
#[derive(Clone, Copy, Debug)]
pub struct CallgrindStats {
    /// Ir: equals the number of instructions executed
    pub instructions_executed: u64,
    /// I1mr: I1 cache read misses
    pub l1_instructions_cache_read_misses: u64,
    /// ILmr: LL cache instruction read misses
    pub l3_instructions_cache_read_misses: u64,
    /// Dr: Memory reads
    pub total_data_cache_reads: u64,
    /// D1mr: D1 cache read misses
    pub l1_data_cache_read_misses: u64,
    /// DLmr: LL cache data read misses
    pub l3_data_cache_read_misses: u64,
    /// Dw: Memory writes
    pub total_data_cache_writes: u64,
    /// D1mw: D1 cache write misses
    pub l1_data_cache_write_misses: u64,
    /// DLmw: LL cache data write misses
    pub l3_data_cache_write_misses: u64,
}

impl CallgrindStats {
    /// The counters in the order `Ir Dr Dw I1mr D1mr D1mw ILmr DLmr DLmw`
    pub open spec fn counters(self) -> Seq<int> {
        seq![
            self.instructions_executed as int,
            self.total_data_cache_reads as int,
            self.total_data_cache_writes as int,
            self.l1_instructions_cache_read_misses as int,
            self.l1_data_cache_read_misses as int,
            self.l1_data_cache_write_misses as int,
            self.l3_instructions_cache_read_misses as int,
            self.l3_data_cache_read_misses as int,
            self.l3_data_cache_write_misses as int,
        ]
    }

    /// The stats of nine counters in the order `Ir Dr Dw I1mr D1mr D1mw ILmr DLmr DLmw`
    fn from_counters(c: &Vec<u64>) -> (r: CallgrindStats)
        requires
            c.len() == 9,
        ensures
            r.counters() == counter_ints(c@),
    {
        let r = CallgrindStats {
            instructions_executed: c[0],
            total_data_cache_reads: c[1],
            total_data_cache_writes: c[2],
            l1_instructions_cache_read_misses: c[3],
            l1_data_cache_read_misses: c[4],
            l1_data_cache_write_misses: c[5],
            l3_instructions_cache_read_misses: c[6],
            l3_data_cache_read_misses: c[7],
            l3_data_cache_write_misses: c[8],
        };
        assert(r.counters() =~= counter_ints(c@));
        r
    }

    /// The RAM hits: the LL misses
    pub open spec fn ram_hits_spec(self) -> int {
        self.l3_instructions_cache_read_misses + self.l3_data_cache_read_misses
            + self.l3_data_cache_write_misses
    }

    /// The LL hits: the L1 misses that are no RAM hits
    pub open spec fn l3_hits_spec(self) -> int {
        self.l1_instructions_cache_read_misses + self.l1_data_cache_read_misses
            + self.l1_data_cache_write_misses - self.ram_hits_spec()
    }

    /// All memory accesses: instruction reads, data reads and data writes
    pub open spec fn total_memory_rw_spec(self) -> int {
        self.instructions_executed + self.total_data_cache_reads + self.total_data_cache_writes
    }

    /// The L1 hits: the accesses that are neither RAM nor LL hits
    pub open spec fn l1_hits_spec(self) -> int {
        self.total_memory_rw_spec() - self.ram_hits_spec() - self.l3_hits_spec()
    }

    /// The estimated cycles: L1 hits weigh 1, LL hits 5 and RAM hits 35
    pub open spec fn cycles_spec(self) -> int {
        self.l1_hits_spec() + 5 * self.l3_hits_spec() + 35 * self.ram_hits_spec()
    }

    /// The counters add up: every count of the summary is a `u64`.
    pub open spec fn summarizable(self) -> bool {
        &&& 0 <= self.l3_hits_spec()
        &&& 0 <= self.l1_hits_spec()
        &&& self.total_memory_rw_spec() <= u64::MAX
        &&& self.l1_instructions_cache_read_misses + self.l1_data_cache_read_misses
            + self.l1_data_cache_write_misses <= u64::MAX
        &&& self.cycles_spec() <= u64::MAX
    }

    /// Summarize the counters; the counters must add up
    pub fn summarize(&self) -> (r: CallgrindSummary)
        requires
            self.summarizable(),
        ensures
            r.instructions == self.instructions_executed,
            r.l1_hits == self.l1_hits_spec(),
            r.l3_hits == self.l3_hits_spec(),
            r.ram_hits == self.ram_hits_spec(),
            r.total_memory_rw == self.total_memory_rw_spec(),
            r.cycles == self.cycles_spec(),
            r.total_memory_rw == r.l1_hits + r.l3_hits + r.ram_hits,
    {
        let ram_hits = self.l3_instructions_cache_read_misses + self.l3_data_cache_read_misses
            + self.l3_data_cache_write_misses;
        let l1_data_accesses = self.l1_data_cache_read_misses + self.l1_data_cache_write_misses;
        let l1_miss = self.l1_instructions_cache_read_misses + l1_data_accesses;
        let l3_accesses = l1_miss;
        let l3_hits = l3_accesses - ram_hits;
        let total_memory_rw = self.instructions_executed + self.total_data_cache_reads
            + self.total_data_cache_writes;
        let l1_hits = total_memory_rw - ram_hits - l3_hits;
        let cycles = l1_hits + (5 * l3_hits) + (35 * ram_hits);
        CallgrindSummary {
            instructions: self.instructions_executed,
            l1_hits,
            l3_hits,
            ram_hits,
            total_memory_rw,
            cycles,
        }
    }
}

/// The summary of the counters
#[derive(Clone, Copy, Debug)]
pub struct CallgrindSummary {
    pub instructions: u64,
    pub l1_hits: u64,
    pub l3_hits: u64,
    pub ram_hits: u64,
    pub total_memory_rw: u64,
    pub cycles: u64,
}

/// The counters after adding the first nine numbers of `tokens` from `skip` on.
pub open spec fn add_from(counters: Seq<int>, tokens: Seq<Seq<char>>, skip: int) -> Seq<int> {
    Seq::new(
        9,
        |i: int|
            if i + skip < tokens.len() {
                counters[i] + parse_u64(tokens[i + skip]).unwrap()
            } else {
                counters[i]
            },
    )
}

/// The first nine numbers of `tokens` from `skip` on parse.
pub open spec fn numbers_parse(tokens: Seq<Seq<char>>, skip: int) -> bool {
    forall|i: int| skip <= i < tokens.len() && i < skip + 9 ==> #[trigger] parse_u64(tokens[i]) is Some
}

/// Add the first nine numbers of `tokens` from `skip` on to the counters
fn add_numbers(counters: &mut Vec<u64>, tokens: &Vec<Vec<char>>, skip: usize)
    requires
        old(counters).len() == 9,
        skip <= 2,
        numbers_parse(token_views(tokens@), skip as int),
        forall|k: int| 0 <= k < 9 ==> #[trigger] add_from(counter_ints(old(counters)@), token_views(tokens@), skip as int)[k] <= u64::MAX,
    ensures
        final(counters).len() == 9,
        counter_ints(final(counters)@) == add_from(counter_ints(old(counters)@), token_views(tokens@), skip as int),
{
    let ghost toks = token_views(tokens@);
    let ghost start = counter_ints(counters@);
    let ghost target = add_from(start, toks, skip as int);
    let mut k: usize = 0;
    while k < 9
        invariant
            0 <= k <= 9,
            skip <= 2,
            counters.len() == 9,
            toks == token_views(tokens@),
            numbers_parse(toks, skip as int),
            target == add_from(start, toks, skip as int),
            start.len() == 9,
            forall|j: int| 0 <= j < 9 ==> #[trigger] target[j] <= u64::MAX,
            forall|j: int| 0 <= j < k ==> #[trigger] counters@[j] as int == target[j],
            forall|j: int| k <= j < 9 ==> #[trigger] counters@[j] as int == start[j],
        decreases 9 - k,
    {
        if k + skip < tokens.len() {
            assert(toks[k + skip] == tokens@[k + skip]@);
            let v = parse_u64_exec(&tokens[k + skip]);
            let c = counters[k];
            match v {
                Some(v) => {
                    assert(target[k as int] == start[k as int] + v);
                    counters.set(k, c + v);
                },
                None => {
                    assert(false);
                },
            }
        }
        k += 1;
    }
    assert(counter_ints(counters@) =~= target);
}

/// The line holds the summary: `summary:` or `totals:` and the counts.
pub open spec fn summary_numbers(line: Seq<char>) -> Option<Seq<Seq<char>>> {
    match strip_prefix(line, "summary:"@) {
        Some(rest) => Some(words(trim(rest))),
        None => match strip_prefix(line, "totals:"@) {
            Some(rest) => Some(words(trim(rest))),
            None => None,
        },
    }
}

/// The index of the first line at or after `from` that holds a summary.
pub open spec fn summary_line(lines: Seq<Seq<char>>, from: int) -> Option<int> {
    if exists|i: int| from <= i < lines.len() && #[trigger] summary_numbers(lines[i]) is Some {
        Some(choose|i: int| from <= i < lines.len() && #[trigger] summary_numbers(lines[i]) is Some && forall|j: int| from <= j < i ==> summary_numbers(lines[j]) is None)
    } else {
        None
    }
}

/// The first line holding a summary is the one `summary_line` picks.
proof fn lemma_summary_line(lines: Seq<Seq<char>>, from: int, i: int)
    requires
        from <= i < lines.len(),
        summary_numbers(lines[i]) is Some,
        forall|j: int| from <= j < i ==> #[trigger] summary_numbers(lines[j]) is None,
    ensures
        summary_line(lines, from) == Some(i),
{
    let c = choose|c: int| from <= c < lines.len() && #[trigger] summary_numbers(lines[c]) is Some && forall|j: int| from <= j < c ==> summary_numbers(lines[j]) is None;
    assert(from <= c < lines.len() && summary_numbers(lines[c]) is Some && forall|j: int| from <= j < c ==> summary_numbers(lines[j]) is None);
    if c < i {
        assert(summary_numbers(lines[c]) is None);
    }
    if i < c {
        assert(summary_numbers(lines[i]) is None);
    }
}

/// The output file of callgrind for a benchmark
#[derive(Debug)]
pub struct CallgrindOutput {
    pub file: String,
}

/// The index of the first line at or after `from` that is not blank, the file format line.
pub open spec fn format_line(lines: Seq<Seq<char>>) -> int {
    choose|i: int| 0 <= i < lines.len() && trim(#[trigger] lines[i]).len() > 0 && forall|j: int| 0 <= j < i ==> trim(lines[j]).len() == 0
}

/// The index of the first line that is not blank
fn find_format_line(lines: &Vec<String>) -> (r: usize)
    requires
        exists|i: int| 0 <= i < lines.len() && trim(#[trigger] lines@[i]@).len() > 0,
    ensures
        r < lines.len(),
        r == format_line(line_views(lines@)),
{
    let ghost ls = line_views(lines@);
    let mut i: usize = 0;
    while i < lines.len() && trim_chars(&to_chars(lines[i].as_str())).len() == 0
        invariant
            0 <= i <= lines.len(),
            ls == line_views(lines@),
            forall|j: int| 0 <= j < i ==> trim(#[trigger] ls[j]).len() == 0,
        decreases lines.len() - i,
    {
        i += 1;
    }
    proof {
        let k = choose|k: int| 0 <= k < lines.len() && trim(#[trigger] lines@[k]@).len() > 0;
        assert(ls[k] == lines@[k]@);
        assert(i < lines.len());
        assert(ls[i as int] == lines@[i as int]@);
        assert(0 <= i < ls.len() && trim(ls[i as int]).len() > 0 && forall|j: int|
            0 <= j < i ==> trim(ls[j]).len() == 0);
        let f = format_line(ls);
        assert(0 <= f < ls.len() && trim(ls[f]).len() > 0 && forall|j: int|
            0 <= j < f ==> trim(ls[j]).len() == 0);
        if f < i {
            assert(trim(ls[f]).len() == 0);
        }
        if i < f {
            assert(trim(ls[i as int]).len() == 0);
        }
    }
    i
}

/// The counters of the summary of the output lines: of the first `summary:` or `totals:` line
/// after the format line, or zero if there is none.
pub open spec fn summary_counters(lines: Seq<Seq<char>>) -> Seq<int> {
    match summary_line(lines, format_line(lines) + 1) {
        Some(i) => add_from(Seq::new(9, |k: int| 0int), summary_numbers(lines[i]).unwrap(), 0),
        None => Seq::new(9, |k: int| 0int),
    }
}

impl CallgrindOutput {
    /// The output file of the benchmark `name` in the module `module`: `base_dir` joined with
    /// itself, then with the segments of the module path as directories, then with the file
    /// `callgrind.<name>.out`, where `name` is sanitized and cut to at most 237 bytes (the file
    /// name of the older output, with `.out.old`, then stays within 255 bytes). The caller that
    /// runs callgrind makes the directory and copies an earlier output aside.
    pub fn create(base_dir: &str, module: &str, name: &str) -> (r: CallgrindOutput)
        ensures
            r.file@ == path_join(
                path_join(path_join(base_dir@, base_dir@), path_of(segments(module@))),
                "callgrind."@ + truncated_utf8(sanitized_file_name(name@), 237) + ".out"@,
            ),
    {
        let segs = split_segments(module);
        let module_dirs = collect_path(&segs);
        assert(segs@.map_values(|c: String| c@) =~= string_views(segs@));
        let sanitized = sanitize_file_name(name);
        let short = truncate_str_utf8(sanitized.as_str(), 237);
        let mut file_name = to_chars("callgrind.");
        append_str(&mut file_name, short.as_str());
        append_str(&mut file_name, ".out");
        let file_name = from_chars(&file_name);
        let base = join(base_dir, base_dir);
        let dir = join(base.as_str(), module_dirs.as_str());
        CallgrindOutput { file: join(dir.as_str(), file_name.as_str()) }
    }

    /// The output of the previous run: the file with the extension `out.old`; for a file name
    /// such as `callgrind.bench.out`, the part after its last `.` is replaced by `out.old`.
    pub fn old_output(&self) -> (r: CallgrindOutput)
        ensures
            r.file@ == path_with_extension(self.file@, "out.old"@),
            self.file@.len() > 0 && self.file@.last() != '/' && file_name_of(self.file@) != seq!['.', '.']
                && last_index_of(file_name_of(self.file@), '.') > 0
                ==> r.file@ == self.file@.take(last_index_of(self.file@, '.')) + ".out.old"@,
    {
        proof {
            reveal_strlit("out.old");
            reveal_strlit(".out.old");
            assert("out.old"@ =~= seq!['o', 'u', 't', '.', 'o', 'l', 'd']);
            assert(seq!['.'] + "out.old"@ =~= ".out.old"@);
        }
        CallgrindOutput { file: with_extension(self.file.as_str(), "out.old") }
    }

    /// The counters of the first `summary:` or `totals:` line of the output lines after the
    /// format line; zero if there is none. The first nine counts must parse.
    pub fn parse_summary(&self, lines: &Vec<String>) -> (r: CallgrindStats)
        requires
            exists|i: int| 0 <= i < lines.len() && trim(#[trigger] lines@[i]@).len() > 0,
            summary_line(line_views(lines@), format_line(line_views(lines@)) + 1) matches Some(i)
                ==> numbers_parse(summary_numbers(line_views(lines@)[i]).unwrap(), 0),
        ensures
            r.counters() == summary_counters(line_views(lines@)),
    {
        let ghost ls = line_views(lines@);
        let f = find_format_line(lines);
        let mut counters: Vec<u64> = vec![0, 0, 0, 0, 0, 0, 0, 0, 0];
        assert(counter_ints(counters@) =~= Seq::new(9, |k: int| 0int));
        let mut i: usize = f + 1;
        while i < lines.len()
            invariant
                f + 1 <= i <= lines.len(),
                f == format_line(ls),
                ls == line_views(lines@),
                counters.len() == 9,
                counter_ints(counters@) == Seq::new(9, |k: int| 0int),
                forall|j: int| f + 1 <= j < i ==> #[trigger] summary_numbers(ls[j]) is None,
                summary_line(ls, f + 1) matches Some(k) ==> numbers_parse(summary_numbers(ls[k]).unwrap(), 0),
            decreases lines.len() - i,
        {
            let line = to_chars(lines[i].as_str());
            assert(ls[i as int] == line@);
            let rest = match strip_prefix_exec(&line, "summary:") {
                Some(rest) => Some(rest),
                None => strip_prefix_exec(&line, "totals:"),
            };
            match rest {
                Some(rest) => {
                    let tokens = words_exec(&trim_chars(&rest));
                    proof {
                        lemma_summary_line(ls, f + 1, i as int);
                        assert(token_views(tokens@) == summary_numbers(ls[i as int]).unwrap());
                        assert forall|k: int| 0 <= k < 9 implies #[trigger] add_from(counter_ints(counters@), token_views(tokens@), 0)[k] <= u64::MAX by {
                            if k < tokens.len() {
                                assert(numbers_parse(token_views(tokens@), 0));
                                assert(parse_u64(token_views(tokens@)[k]) is Some);
                            }
                        }
                    }
                    add_numbers(&mut counters, &tokens, 0);
                    return CallgrindStats::from_counters(&counters);
                },
                None => {},
            }
            i += 1;
        }
        assert(summary_line(ls, f + 1) is None);
        CallgrindStats::from_counters(&counters)
    }
}

/// The state of the parser of the costs of a benchmark function: the counters, whether the
/// lines belong to its record, and whether a count of a cost line does not parse.
pub ghost struct RecordState {
    pub counters: Seq<int>,
    pub start_record: bool,
    pub malformed: bool,
}

/// The state after a line of the record part of the output: a blank line ends a record; the
/// sentinel's line starts one (a `fl=` line of the benchmark file is passed over); within it,
/// the first nine counts after the position columns of each cost line are added.
pub open spec fn record_step(
    st: RecordState,
    raw: Seq<char>,
    sentinel: Seq<char>,
    bench_file: Seq<char>,
    columns: int,
) -> RecordState {
    let line = trim_start(raw);
    let st = if line.len() == 0 {
        RecordState { start_record: false, ..st }
    } else {
        st
    };
    if st.malformed {
        st
    } else if !st.start_record {
        if "fl="@.is_prefix_of(line) && bench_file.is_suffix_of(line) {
            st
        } else if sentinel.is_prefix_of(line) {
            RecordState { start_record: true, ..st }
        } else {
            st
        }
    } else if line.len() > 0 && '0' <= line[0] && line[0] <= '9' {
        if numbers_parse(words(line), columns) {
            RecordState { counters: add_from(st.counters, words(line), columns), ..st }
        } else {
            RecordState { malformed: true, ..st }
        }
    } else {
        st
    }
}

/// The state after the lines, one after the other.
pub open spec fn record_fold(
    st: RecordState,
    lines: Seq<Seq<char>>,
    sentinel: Seq<char>,
    bench_file: Seq<char>,
    columns: int,
) -> RecordState
    decreases lines.len(),
{
    if lines.len() == 0 {
        st
    } else {
        record_step(record_fold(st, lines.drop_last(), sentinel, bench_file, columns), lines.last(), sentinel, bench_file, columns)
    }
}

/// The state before the first line.
pub open spec fn record_start() -> RecordState {
    RecordState { counters: Seq::new(9, |k: int| 0int), start_record: false, malformed: false }
}

/// The index of the first `positions:` line after the format line.
#[verifier::opaque]
pub open spec fn mode_line(lines: Seq<Seq<char>>) -> int {
    choose|p: int|
        format_line(lines) < p < lines.len() && (#[trigger] positions_mode_of(lines[p])) is Some && forall|j: int|
            format_line(lines) < j < p ==> positions_mode_of(lines[j]) is None
}

/// The state of the parser after the lines of an output file: the lines after the first
/// `positions:` line, read with its mode.
pub open spec fn record_result(lines: Seq<Seq<char>>, sentinel: Seq<char>, bench_file: Seq<char>) -> RecordState {
    let p = mode_line(lines);
    record_fold(
        record_start(),
        lines.subrange(p + 1, lines.len() as int),
        sentinel,
        bench_file,
        positions_mode_of(lines[p]).unwrap().columns(),
    )
}

/// A line never lowers a counter and keeps a malformed state malformed.
proof fn lemma_record_step_mono(st: RecordState, line: Seq<char>, sentinel: Seq<char>, bench_file: Seq<char>, columns: int)
    requires
        st.counters.len() == 9,
    ensures
        record_step(st, line, sentinel, bench_file, columns).counters.len() == 9,
        forall|k: int| 0 <= k < 9 ==> #[trigger] st.counters[k] <= record_step(st, line, sentinel, bench_file, columns).counters[k],
        st.malformed ==> record_step(st, line, sentinel, bench_file, columns).malformed,
{
}

/// The counters only grow, and a malformed state stays malformed, whatever lines follow.
proof fn lemma_record_fold_mono(
    st: RecordState,
    a: Seq<Seq<char>>,
    b: Seq<Seq<char>>,
    sentinel: Seq<char>,
    bench_file: Seq<char>,
    columns: int,
)
    requires
        st.counters.len() == 9,
    ensures
        record_fold(st, a + b, sentinel, bench_file, columns).counters.len() == 9,
        record_fold(st, a, sentinel, bench_file, columns).counters.len() == 9,
        forall|k: int| 0 <= k < 9 ==> #[trigger] record_fold(st, a, sentinel, bench_file, columns).counters[k] <= record_fold(
            st,
            a + b,
            sentinel,
            bench_file,
            columns,
        ).counters[k],
        record_fold(st, a, sentinel, bench_file, columns).malformed ==> record_fold(st, a + b, sentinel, bench_file, columns).malformed,
    decreases a.len() + b.len(),
{
    if b.len() == 0 {
        assert(a + b =~= a);
        lemma_record_fold_len(st, a, sentinel, bench_file, columns);
    } else {
        lemma_record_fold_mono(st, a, b.drop_last(), sentinel, bench_file, columns);
        assert((a + b).drop_last() =~= a + b.drop_last());
        assert((a + b).last() == b.last());
        let prev = record_fold(st, a + b.drop_last(), sentinel, bench_file, columns);
        lemma_record_step_mono(prev, b.last(), sentinel, bench_file, columns);
    }
}

/// The counters stay nine.
proof fn lemma_record_fold_len(st: RecordState, a: Seq<Seq<char>>, sentinel: Seq<char>, bench_file: Seq<char>, columns: int)
    requires
        st.counters.len() == 9,
    ensures
        record_fold(st, a, sentinel, bench_file, columns).counters.len() == 9,
    decreases a.len(),
{
    if a.len() > 0 {
        lemma_record_fold_len(st, a.drop_last(), sentinel, bench_file, columns);
        lemma_record_step_mono(record_fold(st, a.drop_last(), sentinel, bench_file, columns), a.last(), sentinel, bench_file, columns);
    }
}

/// The index of the first `positions:` line after the format line `f`, and the number of
/// position columns it names.
fn find_mode_line(lines: &Vec<String>, f: usize) -> (r: (usize, usize))
    requires
        f == format_line(line_views(lines@)),
        exists|p: int|
            format_line(line_views(lines@)) < p < lines.len() && (#[trigger] positions_mode_of(line_views(lines@)[p])) is Some,
    ensures
        r.0 == mode_line(line_views(lines@)),
        f < r.0 < lines.len(),
        r.1 == positions_mode_of(line_views(lines@)[r.0 as int]).unwrap().columns(),
        1 <= r.1 <= 2,
{
    let ghost ls = line_views(lines@);
    let mut i: usize = f + 1;
    let mut mode: Option<PositionsMode> = None;
    while i < lines.len()
        invariant_except_break
            mode is None,
        invariant
            f + 1 <= i <= lines.len(),
            f == format_line(ls),
            ls == line_views(lines@),
            forall|j: int| f < j < i ==> #[trigger] positions_mode_of(ls[j]) is None,
        ensures
            mode matches Some(m) ==> i < lines.len() && positions_mode_of(ls[i as int]) == Some(m),
            mode is None ==> i == lines.len(),
        decreases lines.len() - i,
    {
        assert(ls[i as int] == lines@[i as int]@);
        let m = PositionsMode::from_positions_line(lines[i].as_str());
        if m.is_some() {
            mode = m;
            break;
        }
        i += 1;
    }
    let columns: usize = match mode {
        Some(PositionsMode::InstrLine) => 2,
        Some(_) => 1,
        None => {
            proof {
                let p = choose|p: int| f < p < lines.len() && (#[trigger] positions_mode_of(ls[p])) is Some;
                assert(positions_mode_of(ls[p]) is None);
            }
            1
        },
    };
    proof {
        reveal(mode_line);
        let p = i as int;
        let q = mode_line(ls);
        assert(f < p < ls.len() && positions_mode_of(ls[p]) is Some && forall|j: int|
            f < j < p ==> positions_mode_of(ls[j]) is None);
        assert(f < q < ls.len() && positions_mode_of(ls[q]) is Some && forall|j: int|
            f < j < q ==> positions_mode_of(ls[j]) is None);
        if q < p {
            assert(positions_mode_of(ls[q]) is None);
        }
        if p < q {
            assert(positions_mode_of(ls[p]) is None);
        }
    }
    (i, columns)
}

impl CallgrindOutput {
    /// The costs of the benchmark function of the sentinel in the lines of the output file.
    ///
    /// The first line that is not blank names the format; the first `positions:` line after it
    /// gives the number of position columns of the cost lines. In the lines after it, the record
    /// of the function starts at the line that starts with the sentinel and ends at a blank
    /// line; the first nine counts of its cost lines are summed.
    #[verifier::rlimit(60)]
    pub fn parse(&self, lines: &Vec<String>, bench_file: &str, sentinel: &Sentinel) -> (r: CallgrindStats)
        requires
            exists|i: int| 0 <= i < lines.len() && trim(#[trigger] lines@[i]@).len() > 0,
            exists|p: int|
                format_line(line_views(lines@)) < p < lines.len() && (#[trigger] positions_mode_of(line_views(lines@)[p])) is Some,
            !record_result(line_views(lines@), sentinel.0@, bench_file@).malformed,
            forall|k: int| 0 <= k < 9 ==> #[trigger] record_result(line_views(lines@), sentinel.0@, bench_file@).counters[k] <= u64::MAX,
        ensures
            r.counters() == record_result(line_views(lines@), sentinel.0@, bench_file@).counters,
    {
        let ghost ls = line_views(lines@);
        let f = find_format_line(lines);
        let (mode_index, columns) = find_mode_line(lines, f);
        let mut i: usize = mode_index;
        let ghost p = i as int;
        let ghost cols = columns as int;
        let ghost sv = sentinel.0@;
        let ghost bf = bench_file@;
        let ghost final_state = record_fold(record_start(), ls.subrange(p + 1, ls.len() as int), sv, bf, cols);
        let s = to_chars(sentinel.as_str());
        let b = to_chars(bench_file);
        let mut counters: Vec<u64> = vec![0, 0, 0, 0, 0, 0, 0, 0, 0];
        let mut start_record = false;
        i += 1;
        assert(ls.subrange(p + 1, p + 1) =~= Seq::<Seq<char>>::empty());
        assert(counter_ints(counters@) =~= record_start().counters);
        while i < lines.len()
            invariant
                0 <= p,
                p + 1 <= i <= lines.len(),
                ls.len() == lines.len(),
                ls == line_views(lines@),
                s@ == sv,
                b@ == bf,
                1 <= cols <= 2,
                cols == columns,
                counters.len() == 9,
                final_state == record_fold(record_start(), ls.subrange(p + 1, ls.len() as int), sv, bf, cols),
                !final_state.malformed,
                forall|k: int| 0 <= k < 9 ==> #[trigger] final_state.counters[k] <= u64::MAX,
                ({
                    let st = record_fold(record_start(), ls.subrange(p + 1, i as int), sv, bf, cols);
                    &&& counter_ints(counters@) == st.counters
                    &&& start_record == st.start_record
                    &&& !st.malformed
                }),
            decreases lines.len() - i,
        {
            let line = trim_start_chars(&to_chars(lines[i].as_str()));
            assert(ls.subrange(p + 1, i + 1).drop_last() =~= ls.subrange(p + 1, i as int));
            assert(ls.subrange(p + 1, i + 1).last() == lines@[i as int]@);
            if line.len() == 0 {
                start_record = false;
            }
            if !start_record {
                if starts_with(&line, "fl=") && crate::text::ends_with_chars(&line, &b) {
                } else if starts_with_chars(&line, &s) {
                    start_record = true;
                }
            } else if line.len() > 0 && '0' <= line[0] && line[0] <= '9' {
                let tokens = words_exec(&line);
                proof {
                    lemma_record_fold_mono(
                        record_start(),
                        ls.subrange(p + 1, i + 1),
                        ls.subrange(i + 1, ls.len() as int),
                        sv,
                        bf,
                        cols,
                    );
                    assert(ls.subrange(p + 1, i + 1) + ls.subrange(i + 1, ls.len() as int) =~= ls.subrange(
                        p + 1,
                        ls.len() as int,
                    ));
                }
                add_numbers(&mut counters, &tokens, columns);
            }
            i += 1;
        }
        assert(ls.subrange(p + 1, i as int) =~= ls.subrange(p + 1, ls.len() as int));
        CallgrindStats::from_counters(&counters)
    }
}

} // verus!
