//! A plain callgrind run of a benchmark function: the output file of a benchmark, its
//! parsing for the counters of the benchmark function and the arguments handed to callgrind.
use vstd::prelude::*;

use crate::paths::{
    collect_path, file_name_of, join, last_index_of, path_join, path_of, path_with_extension,
    with_extension,
};
use crate::runner::common::{segments, split_segments, string_views};
use crate::text::{starts_with_chars, 
    append_str, from_chars, owned, parse_u64, parse_u64_exec, starts_with, to_chars, trim,
    trim_chars, trim_start, trim_start_chars, words, words_exec,
};

verus! {

/// The output file of callgrind for a benchmark
#[derive(Debug)]
pub struct CallgrindOutput {
    pub file: String,
}

impl CallgrindOutput {
    /// The output file of the benchmark `name` in the module `module`: below `target/iai`, the
    /// segments of the module path as directories, then the file `callgrind.<name>.out`. The
    /// caller that runs callgrind makes the directory and copies an earlier output aside.
    pub fn create(module: &str, name: &str) -> (r: CallgrindOutput)
        ensures
            r.file@ == path_join(
                path_join("target/iai"@, path_of(segments(module@))),
                "callgrind."@ + name@ + ".out"@,
            ),
    {
        let segs = split_segments(module);
        let dirs = collect_path(&segs);
        assert(segs@.map_values(|c: String| c@) =~= string_views(segs@));
        let mut file_name = to_chars("callgrind.");
        append_str(&mut file_name, name);
        append_str(&mut file_name, ".out");
        let file_name = from_chars(&file_name);
        let dir = join("target/iai", dirs.as_str());
        CallgrindOutput { file: join(dir.as_str(), file_name.as_str()) }
    }

    /// The output of the previous run: the file with the extension `out.old`; for a file name
    /// such as `callgrind.bench.out`, the part after its last `.` is replaced by `out.old`.
    pub fn old_output(&self) -> (r: CallgrindOutput)
        ensures
            r.file@ == path_with_extension(self.file@, "out.old"@),
            self.file@.len() > 0 && self.file@.last() != '/' && file_name_of(self.file@) != seq!['.', '.']
                && last_index_of(file_name_of(self.file@), '.') > 0
                ==> r.file@ == self.file@.take(last_index_of(self.file@, '.')) + ".out.old"@,
    {
        proof {
            reveal_strlit("out.old");
            reveal_strlit(".out.old");
            assert("out.old"@ =~= seq!['o', 'u', 't', '.', 'o', 'l', 'd']);
            assert(seq!['.'] + "out.old"@ =~= ".out.old"@);
        }
        CallgrindOutput { file: with_extension(self.file.as_str(), "out.old") }
    }
}

/// The counters of the benchmark function while the lines are read one by one.
pub ghost struct CounterState {
    /// `Ir Dr Dw I1mr D1mr D1mw ILmr DLmr DLmw`
    pub counters: Seq<int>,
    /// In the record of the benchmark function
    pub start_record: bool,
    /// After a `cfn=` line of a function the benchmark function calls
    pub maybe_counting: bool,
    /// After the `calls` line of such a call
    pub start_counting: bool,
    /// A counter that does not parse
    pub malformed: bool,
}

/// The text of the lines.
pub open spec fn line_views(v: Seq<String>) -> Seq<Seq<char>> {
    v.map_values(|l: String| l@)
}

/// The counters as integers.
pub open spec fn counter_ints(v: Seq<u64>) -> Seq<int> {
    v.map_values(|c: u64| c as int)
}

/// The text of the tokens.
pub open spec fn token_views(v: Seq<Vec<char>>) -> Seq<Seq<char>> {
    v.map_values(|t: Vec<char>| t@)
}

/// The counters after adding the values of a cost line: the first number (the position) is
/// skipped, the next nine are added.
pub open spec fn add_counters(counters: Seq<int>, tokens: Seq<Seq<char>>) -> Seq<int> {
    Seq::new(
        9,
        |i: int|
            if i + 1 < tokens.len() {
                counters[i] + parse_u64(tokens[i + 1]).unwrap()
            } else {
                counters[i]
            },
    )
}

/// The numbers of a cost line that are added all parse.
pub open spec fn counters_parse(tokens: Seq<Seq<char>>) -> bool {
    forall|i: int| 1 <= i < tokens.len() && i <= 9 ==> #[trigger] parse_u64(tokens[i]) is Some
}

/// The state after a line of the output file, for the benchmark function `fn=<sentinel>`.
pub open spec fn counter_step(st: CounterState, raw: Seq<char>, sentinel: Seq<char>) -> CounterState {
    let line = trim_start(raw);
    let st = if line.len() == 0 {
        CounterState { start_record: false, maybe_counting: false, start_counting: false, ..st }
    } else {
        st
    };
    if st.malformed {
        st
    } else if !st.start_record {
        if sentinel.is_prefix_of(line) {
            CounterState { start_record: true, ..st }
        } else {
            st
        }
    } else if !st.maybe_counting {
        if "cfn="@.is_prefix_of(line) {
            CounterState { maybe_counting: true, ..st }
        } else {
            st
        }
    } else if !st.start_counting {
        if "calls"@.is_prefix_of(line) {
            CounterState { start_counting: true, ..st }
        } else {
            st
        }
    } else if line.len() > 0 && '0' <= line[0] && line[0] <= '9' {
        if counters_parse(words(line)) {
            CounterState { counters: add_counters(st.counters, words(line)), ..st }
        } else {
            CounterState { malformed: true, ..st }
        }
    } else if "cfn="@.is_prefix_of(line) {
        CounterState { start_counting: false, ..st }
    } else {
        CounterState { maybe_counting: false, start_counting: false, ..st }
    }
}

/// The state after the lines `lines`, one after the other.
pub open spec fn counter_fold(st: CounterState, lines: Seq<Seq<char>>, sentinel: Seq<char>) -> CounterState
    decreases lines.len(),
{
    if lines.len() == 0 {
        st
    } else {
        counter_step(counter_fold(st, lines.drop_last(), sentinel), lines.last(), sentinel)
    }
}

/// The state before the first line
pub open spec fn counter_start() -> CounterState {
    CounterState {
        counters: Seq::new(9, |i: int| 0),
        start_record: false,
        maybe_counting: false,
        start_counting: false,
        malformed: false,
    }
}

/// The index of the first line that is not blank.
pub open spec fn first_nonblank(lines: Seq<Seq<char>>) -> int {
    choose|i: int| 0 <= i < lines.len() && trim(#[trigger] lines[i]).len() > 0 && forall|j: int| 0 <= j < i ==> trim(lines[j]).len() == 0
}

/// The counters of the benchmark function: the costs of the calls it makes. The lines start
/// after the first line that is not blank, which names the file format.
pub open spec fn counters_of(lines: Seq<Seq<char>>, sentinel: Seq<char>) -> CounterState {
    counter_fold(
        counter_start(),
        lines.subrange(first_nonblank(lines) + 1, lines.len() as int),
        sentinel,
    )
}

/// The counters of the cache simulation of callgrind for a benchmark function
#[derive(Clone, Copy, Debug)]
pub struct CallgrindStats {
    /// Ir: equals the number of instructions executed
    pub l1_instructions_cache_reads: u64,
    /// I1mr: I1 cache read misses
    pub l1_instructions_cache_read_misses: u64,
    /// ILmr: LL cache instruction read misses
    pub l3_instructions_cache_misses: u64,
    /// Dr: Memory reads
    pub total_data_cache_reads: u64,
    /// D1mr: D1 cache read misses
    pub l1_data_cache_read_misses: u64,
    /// DLmr: LL cache data read misses
    pub l3_data_cache_read_misses: u64,
    /// Dw: Memory writes
    pub total_data_cache_writes: u64,
    /// D1mw: D1 cache write misses
    pub l1_data_cache_write_misses: u64,
    /// DLmw: LL cache data write misses
    pub l3_data_cache_write_misses: u64,
}

impl CallgrindStats {
    /// The counters in the order `Ir Dr Dw I1mr D1mr D1mw ILmr DLmr DLmw`
    pub open spec fn counters(self) -> Seq<int> {
        seq![
            self.l1_instructions_cache_reads as int,
            self.total_data_cache_reads as int,
            self.total_data_cache_writes as int,
            self.l1_instructions_cache_read_misses as int,
            self.l1_data_cache_read_misses as int,
            self.l1_data_cache_write_misses as int,
            self.l3_instructions_cache_misses as int,
            self.l3_data_cache_read_misses as int,
            self.l3_data_cache_write_misses as int,
        ]
    }
}

/// The counters only grow, and a malformed line stays malformed, whatever lines follow.
pub proof fn lemma_counter_fold_mono(
    st: CounterState,
    a: Seq<Seq<char>>,
    b: Seq<Seq<char>>,
    sentinel: Seq<char>,
)
    requires
        st.counters.len() == 9,
    ensures
        counter_fold(st, a + b, sentinel).counters.len() == 9,
        counter_fold(st, a, sentinel).counters.len() == 9,
        forall|k: int| 0 <= k < 9 ==> #[trigger] counter_fold(st, a, sentinel).counters[k] <= counter_fold(st, a + b, sentinel).counters[k],
        counter_fold(st, a, sentinel).malformed ==> counter_fold(st, a + b, sentinel).malformed,
    decreases a.len() + b.len(),
{
    if b.len() == 0 {
        assert(a + b =~= a);
        lemma_counter_fold_len(st, a, sentinel);
    } else {
        lemma_counter_fold_mono(st, a, b.drop_last(), sentinel);
        assert((a + b).drop_last() =~= a + b.drop_last());
        assert((a + b).last() == b.last());
        let prev = counter_fold(st, a + b.drop_last(), sentinel);
        lemma_counter_step_mono(prev, b.last(), sentinel);
    }
}

/// The counters stay nine.
proof fn lemma_counter_fold_len(st: CounterState, a: Seq<Seq<char>>, sentinel: Seq<char>)
    requires
        st.counters.len() == 9,
    ensures
        counter_fold(st, a, sentinel).counters.len() == 9,
    decreases a.len(),
{
    if a.len() > 0 {
        lemma_counter_fold_len(st, a.drop_last(), sentinel);
        lemma_counter_step_mono(counter_fold(st, a.drop_last(), sentinel), a.last(), sentinel);
    }
}

/// A line never lowers a counter and keeps a malformed state malformed.
proof fn lemma_counter_step_mono(st: CounterState, line: Seq<char>, sentinel: Seq<char>)
    requires
        st.counters.len() == 9,
    ensures
        counter_step(st, line, sentinel).counters.len() == 9,
        forall|k: int| 0 <= k < 9 ==> #[trigger] st.counters[k] <= counter_step(st, line, sentinel).counters[k],
        st.malformed ==> counter_step(st, line, sentinel).malformed,
{
}

/// Add the numbers of a cost line to the counters: the first number (the position) is skipped,
/// the next nine are added.
fn add_cost_line(counters: &mut Vec<u64>, tokens: &Vec<Vec<char>>)
    requires
        old(counters).len() == 9,
        counters_parse(token_views(tokens@)),
        forall|k: int| 0 <= k < 9 ==> #[trigger] add_counters(counter_ints(old(counters)@), token_views(tokens@))[k] <= u64::MAX,
    ensures
        final(counters).len() == 9,
        counter_ints(final(counters)@) == add_counters(counter_ints(old(counters)@), token_views(tokens@)),
{
    let ghost toks = token_views(tokens@);
    let ghost start = counter_ints(counters@);
    let ghost target = add_counters(start, toks);
    let mut k: usize = 0;
    while k < 9
        invariant
            0 <= k <= 9,
            counters.len() == 9,
            toks == token_views(tokens@),
            counters_parse(toks),
            target == add_counters(start, toks),
            start.len() == 9,
            forall|j: int| 0 <= j < 9 ==> #[trigger] target[j] <= u64::MAX,
            forall|j: int| 0 <= j < k ==> #[trigger] counters@[j] as int == target[j],
            forall|j: int| k <= j < 9 ==> #[trigger] counters@[j] as int == start[j],
        decreases 9 - k,
    {
        if k + 1 < tokens.len() {
            assert(toks[k + 1] == tokens@[k + 1]@);
            let v = parse_u64_exec(&tokens[k + 1]);
            let c = counters[k];
            match v {
                Some(v) => {
                    assert(target[k as int] == start[k as int] + v);
                    counters.set(k, c + v);
                },
                None => {
                    assert(false);
                },
            }
        }
        k += 1;
    }
    assert(counter_ints(counters@) =~= target);
}

/// The text of the cost line as the fold sees it: without leading white space.
fn cost_line(raw: &String) -> (r: Vec<char>)
    ensures
        r@ == trim_start(raw@),
{
    trim_start_chars(&to_chars(raw.as_str()))
}

impl CallgrindOutput {
    /// Parse the lines of a callgrind output file for the costs of the calls that the
    /// benchmark function `module::function_name` makes.
    ///
    /// The first line that is not blank names the format. The record of the benchmark function
    /// starts at its `fn=` line and ends at a blank line; within it, the cost lines after a
    /// `cfn=` line and its `calls` line are summed. The costs of the benchmark function itself
    /// are not counted.
    pub fn parse(&self, lines: &Vec<String>, bench_file: &str, module: &str, function_name: &str) -> (r: CallgrindStats)
        requires
            exists|i: int| 0 <= i < lines.len() && trim(#[trigger] lines@[i]@).len() > 0,
            !counters_of(line_views(lines@), "fn="@ + module@ + "::"@ + function_name@).malformed,
            forall|i: int| 0 <= i < 9 ==> #[trigger] counters_of(line_views(lines@), "fn="@ + module@ + "::"@ + function_name@).counters[i] <= u64::MAX,
        ensures
            r.counters() == counters_of(line_views(lines@), "fn="@ + module@ + "::"@ + function_name@).counters,
    {
        let ghost ls = line_views(lines@);
        let mut sentinel_chars = to_chars("fn=");
        append_str(&mut sentinel_chars, module);
        append_str(&mut sentinel_chars, "::");
        append_str(&mut sentinel_chars, function_name);
        let ghost sentinel = sentinel_chars@;
        let mut i: usize = 0;
        while i < lines.len() && trim_chars(&to_chars(lines[i].as_str())).len() == 0
            invariant
                0 <= i <= lines.len(),
                ls == line_views(lines@),
                forall|j: int| 0 <= j < i ==> trim(#[trigger] ls[j]).len() == 0,
            decreases lines.len() - i,
        {
            i += 1;
        }
        proof {
            let k = choose|k: int| 0 <= k < lines.len() && trim(#[trigger] lines@[k]@).len() > 0;
            assert(ls[k] == lines@[k]@);
            assert(i < lines.len());
            assert(ls[i as int] == lines@[i as int]@);
            assert(0 <= i < ls.len() && trim(ls[i as int]).len() > 0 && forall|j: int|
                0 <= j < i ==> trim(ls[j]).len() == 0);
            let f = first_nonblank(ls);
            assert(0 <= f < ls.len() && trim(ls[f]).len() > 0 && forall|j: int|
                0 <= j < f ==> trim(ls[j]).len() == 0);
            if f < i {
                assert(trim(ls[f]).len() == 0);
            }
            if i < f {
                assert(trim(ls[i as int]).len() == 0);
            }
        }
        let ghost f = i as int;
        i += 1;
        proof {
            assert(ls.subrange(f + 1, f + 1) + ls.subrange(f + 1, ls.len() as int) =~= ls.subrange(f + 1, ls.len() as int));
        }
        let mut counters: Vec<u64> = vec![0, 0, 0, 0, 0, 0, 0, 0, 0];
        let mut start_record = false;
        let mut maybe_counting = false;
        let mut start_counting = false;
        let ghost final_state = counter_fold(counter_start(), ls.subrange(f + 1, ls.len() as int), sentinel);
        assert(ls.subrange(f + 1, f + 1) =~= Seq::<Seq<char>>::empty());
        assert(counter_ints(counters@) =~= counter_start().counters);
        while i < lines.len()
            invariant
                0 <= f,
                f + 1 <= i <= lines.len(),
                ls.len() == lines.len(),
                ls == line_views(lines@),
                sentinel == sentinel_chars@,
                counters.len() == 9,
                final_state == counter_fold(counter_start(), ls.subrange(f + 1, ls.len() as int), sentinel),
                !final_state.malformed,
                forall|k: int| 0 <= k < 9 ==> #[trigger] final_state.counters[k] <= u64::MAX,
                ({
                    let st = counter_fold(counter_start(), ls.subrange(f + 1, i as int), sentinel);
                    &&& counter_ints(counters@) == st.counters
                    &&& start_record == st.start_record
                    &&& maybe_counting == st.maybe_counting
                    &&& start_counting == st.start_counting
                    &&& !st.malformed
                }),
            decreases lines.len() - i,
        {
            let line = cost_line(&lines[i]);
            assert(ls.subrange(f + 1, i + 1).drop_last() =~= ls.subrange(f + 1, i as int));
            assert(ls.subrange(f + 1, i + 1).last() == lines@[i as int]@);
            if line.len() == 0 {
                start_record = false;
                maybe_counting = false;
                start_counting = false;
            }
            if !start_record {
                if starts_with_chars(&line, &sentinel_chars) {
                    start_record = true;
                }
            } else if !maybe_counting {
                if starts_with(&line, "cfn=") {
                    maybe_counting = true;
                }
            } else if !start_counting {
                if starts_with(&line, "calls") {
                    start_counting = true;
                }
            } else if line.len() > 0 && '0' <= line[0] && line[0] <= '9' {
                let tokens = words_exec(&line);
                proof {
                    lemma_counter_fold_mono(
                        counter_start(),
                        ls.subrange(f + 1, i + 1),
                        ls.subrange(i + 1, ls.len() as int),
                        sentinel,
                    );
                    assert(ls.subrange(f + 1, i + 1) + ls.subrange(i + 1, ls.len() as int)
                        =~= ls.subrange(f + 1, ls.len() as int));
                }
                add_cost_line(&mut counters, &tokens);
            } else if starts_with(&line, "cfn=") {
                start_counting = false;
            } else {
                maybe_counting = false;
                start_counting = false;
            }
            i += 1;
        }
        assert(ls.subrange(f + 1, i as int) =~= ls.subrange(f + 1, ls.len() as int));
        CallgrindStats {
            l1_instructions_cache_reads: counters[0],
            total_data_cache_reads: counters[1],
            total_data_cache_writes: counters[2],
            l1_instructions_cache_read_misses: counters[3],
            l1_data_cache_read_misses: counters[4],
            l1_data_cache_write_misses: counters[5],
            l3_instructions_cache_misses: counters[6],
            l3_data_cache_read_misses: counters[7],
            l3_data_cache_write_misses: counters[8],
        }
    }
}

/// The view of the arguments for callgrind.
pub ghost struct ArgsView {
    pub i1: Seq<char>,
    pub d1: Seq<char>,
    pub ll: Seq<char>,
    pub cache_sim: Seq<char>,
    pub collect_atstart: Seq<char>,
    pub other: Seq<Seq<char>>,
    pub toggle_collect: Option<Seq<Seq<char>>>,
    pub compress_strings: Seq<char>,
    pub compress_pos: Seq<char>,
    pub callgrind_out_file: Option<Seq<char>>,
}

/// The default arguments: fixed cache sizes, so that runs are comparable between machines, the
/// cache simulation and no collection at the start.
pub open spec fn default_args() -> ArgsView {
    ArgsView {
        i1: "--I1=32768,8,64"@,
        d1: "--D1=32768,8,64"@,
        ll: "--LL=8388608,16,64"@,
        cache_sim: "--cache-sim=yes"@,
        collect_atstart: "--collect-atstart=no"@,
        other: Seq::empty(),
        toggle_collect: None,
        compress_strings: "--compress-strings=no"@,
        compress_pos: "--compress-pos=no"@,
        callgrind_out_file: None,
    }
}

/// The arguments after the user argument `arg`: a cache size, `--collect-atstart` and the
/// compression options replace the default; `--toggle-collect` is added to the toggles;
/// `--cache-sim` and `--callgrind-out-file` are ignored; anything else is passed on.
pub open spec fn args_step(a: ArgsView, arg: Seq<char>) -> ArgsView {
    if "--I1="@.is_prefix_of(arg) {
        ArgsView { i1: arg, ..a }
    } else if "--D1="@.is_prefix_of(arg) {
        ArgsView { d1: arg, ..a }
    } else if "--LL="@.is_prefix_of(arg) {
        ArgsView { ll: arg, ..a }
    } else if "--cache-sim="@.is_prefix_of(arg) {
        a
    } else if "--collect-atstart="@.is_prefix_of(arg) {
        ArgsView { collect_atstart: arg, ..a }
    } else if "--compress-strings="@.is_prefix_of(arg) {
        ArgsView { compress_strings: arg, ..a }
    } else if "--compress-pos="@.is_prefix_of(arg) {
        ArgsView { compress_pos: arg, ..a }
    } else if "--toggle-collect="@.is_prefix_of(arg) {
        ArgsView {
            toggle_collect: Some(
                match a.toggle_collect {
                    Some(t) => t.push(arg),
                    None => seq![arg],
                },
            ),
            ..a
        }
    } else if "--callgrind-out-file="@.is_prefix_of(arg) {
        a
    } else {
        ArgsView { other: a.other.push(arg), ..a }
    }
}

/// The arguments after the user arguments `args`, one after the other.
pub open spec fn args_fold(a: ArgsView, args: Seq<Seq<char>>) -> ArgsView
    decreases args.len(),
{
    if args.len() == 0 {
        a
    } else {
        args_step(args_fold(a, args.drop_last()), args.last())
    }
}

/// The arguments for callgrind
#[derive(Debug)]
pub struct CallgrindArgs {
    i1: String,
    d1: String,
    ll: String,
    cache_sim: String,
    collect_atstart: String,
    other: Vec<String>,
    toggle_collect: Option<Vec<String>>,
    compress_strings: String,
    compress_pos: String,
    callgrind_out_file: Option<String>,
}

/// The view of an optional list of strings
pub open spec fn opt_lines(v: Option<Vec<String>>) -> Option<Seq<Seq<char>>> {
    match v {
        Some(x) => Some(line_views(x@)),
        None => None,
    }
}

impl CallgrindArgs {
    /// The view of these arguments
    pub closed spec fn view(&self) -> ArgsView {
        ArgsView {
            i1: self.i1@,
            d1: self.d1@,
            ll: self.ll@,
            cache_sim: self.cache_sim@,
            collect_atstart: self.collect_atstart@,
            other: line_views(self.other@),
            toggle_collect: opt_lines(self.toggle_collect),
            compress_strings: self.compress_strings@,
            compress_pos: self.compress_pos@,
            callgrind_out_file: match self.callgrind_out_file {
                Some(f) => Some(f@),
                None => None,
            },
        }
    }

    /// The default arguments
    pub fn default() -> (r: CallgrindArgs)
        ensures
            r.view() == default_args(),
    {
        let r = CallgrindArgs {
            i1: owned("--I1=32768,8,64"),
            d1: owned("--D1=32768,8,64"),
            ll: owned("--LL=8388608,16,64"),
            cache_sim: owned("--cache-sim=yes"),
            collect_atstart: owned("--collect-atstart=no"),
            other: Vec::new(),
            toggle_collect: None,
            compress_strings: owned("--compress-strings=no"),
            compress_pos: owned("--compress-pos=no"),
            callgrind_out_file: None,
        };
        assert(line_views(r.other@) =~= Seq::<Seq<char>>::empty());
        r
    }

    /// Apply one user argument
    fn apply(&mut self, arg: &String)
        ensures
            final(self).view() == args_step(old(self).view(), arg@),
    {
        let a = to_chars(arg.as_str());
        if starts_with(&a, "--I1=") {
            self.i1 = owned(arg.as_str());
        } else if starts_with(&a, "--D1=") {
            self.d1 = owned(arg.as_str());
        } else if starts_with(&a, "--LL=") {
            self.ll = owned(arg.as_str());
        } else if starts_with(&a, "--cache-sim=") {
        } else if starts_with(&a, "--collect-atstart=") {
            self.collect_atstart = owned(arg.as_str());
        } else if starts_with(&a, "--compress-strings=") {
            self.compress_strings = owned(arg.as_str());
        } else if starts_with(&a, "--compress-pos=") {
            self.compress_pos = owned(arg.as_str());
        } else if starts_with(&a, "--toggle-collect=") {
            let x = owned(arg.as_str());
            match self.toggle_collect.take() {
                Some(mut t) => {
                    let ghost before = t@;
                    t.push(x);
                    assert(line_views(t@) =~= line_views(before).push(arg@));
                    self.toggle_collect = Some(t);
                },
                None => {
                    let mut t: Vec<String> = Vec::new();
                    t.push(x);
                    assert(line_views(t@) =~= seq![arg@]);
                    self.toggle_collect = Some(t);
                },
            }
        } else if starts_with(&a, "--callgrind-out-file=") {
        } else {
            let ghost before = self.other@;
            self.other.push(owned(arg.as_str()));
            assert(line_views(self.other@) =~= line_views(before).push(arg@));
        }
    }

    /// The arguments for callgrind from the user arguments `args`, applied in order to the
    /// defaults
    pub fn from_args(args: Vec<String>) -> (r: CallgrindArgs)
        ensures
            r.view() == args_fold(default_args(), line_views(args@)),
    {
        let ghost av = line_views(args@);
        let mut r = CallgrindArgs::default();
        let mut i: usize = 0;
        assert(av.take(0) =~= Seq::<Seq<char>>::empty());
        while i < args.len()
            invariant
                0 <= i <= args.len(),
                av == line_views(args@),
                r.view() == args_fold(default_args(), av.take(i as int)),
            decreases args.len() - i,
        {
            r.apply(&args[i]);
            assert(av.take(i + 1).drop_last() =~= av.take(i as int));
            assert(av.take(i + 1).last() == args@[i as int]@);
            i += 1;
        }
        assert(av.take(args.len() as int) =~= av);
        r
    }

    /// The arguments for a run of callgrind that writes to `output_file` and collects the
    /// costs of `module::function_name`: the cache options, the other user arguments, the
    /// output file, the toggle for the benchmark function and the user toggles.
    pub fn parse_with(&self, output_file: &str, module: &str, function_name: &str) -> (r: Vec<String>)
        ensures
            line_views(r@) == seq![
                self.view().i1,
                self.view().d1,
                self.view().ll,
                self.view().cache_sim,
                self.view().collect_atstart,
                self.view().compress_strings,
                self.view().compress_pos,
            ] + self.view().other + seq![
                match self.view().callgrind_out_file {
                    Some(f) => f,
                    None => "--callgrind-out-file="@ + output_file@,
                },
                "--toggle-collect=*"@ + module@ + "::"@ + function_name@,
            ] + match self.view().toggle_collect {
                Some(t) => t,
                None => Seq::empty(),
            },
    {
        let mut args: Vec<String> = Vec::new();
        args.push(owned(self.i1.as_str()));
        args.push(owned(self.d1.as_str()));
        args.push(owned(self.ll.as_str()));
        args.push(owned(self.cache_sim.as_str()));
        args.push(owned(self.collect_atstart.as_str()));
        args.push(owned(self.compress_strings.as_str()));
        args.push(owned(self.compress_pos.as_str()));
        let ghost head = line_views(args@);
        assert(head =~= seq![
            self.view().i1,
            self.view().d1,
            self.view().ll,
            self.view().cache_sim,
            self.view().collect_atstart,
            self.view().compress_strings,
            self.view().compress_pos,
        ]);
        append_strings(&mut args, &self.other);
        let ghost with_other = line_views(args@);
        let ghost out_arg = match self.view().callgrind_out_file {
            Some(f) => f,
            None => "--callgrind-out-file="@ + output_file@,
        };
        match &self.callgrind_out_file {
            Some(arg) => args.push(owned(arg.as_str())),
            None => {
                let mut c = to_chars("--callgrind-out-file=");
                append_str(&mut c, output_file);
                args.push(from_chars(&c));
            },
        }
        assert(line_views(args@) =~= with_other.push(out_arg));
        let ghost with_out = line_views(args@);
        let mut t = to_chars("--toggle-collect=*");
        append_str(&mut t, module);
        append_str(&mut t, "::");
        append_str(&mut t, function_name);
        args.push(from_chars(&t));
        let ghost with_toggle = line_views(args@);
        assert(with_toggle =~= with_out.push("--toggle-collect=*"@ + module@ + "::"@ + function_name@));
        match &self.toggle_collect {
            Some(toggles) => append_strings(&mut args, toggles),
            None => {
                assert(line_views(args@) =~= with_toggle + Seq::<Seq<char>>::empty());
            },
        }
        assert(line_views(args@) =~= seq![
            self.view().i1,
            self.view().d1,
            self.view().ll,
            self.view().cache_sim,
            self.view().collect_atstart,
            self.view().compress_strings,
            self.view().compress_pos,
        ] + self.view().other + seq![
            match self.view().callgrind_out_file {
                Some(f) => f,
                None => "--callgrind-out-file="@ + output_file@,
            },
            "--toggle-collect=*"@ + module@ + "::"@ + function_name@,
        ] + match self.view().toggle_collect {
            Some(t) => t,
            None => Seq::empty(),
        });
        args
    }
}

/// Append copies of `tail` to `v`
fn append_strings(v: &mut Vec<String>, tail: &Vec<String>)
    ensures
        line_views(final(v)@) == line_views(old(v)@) + line_views(tail@),
{
    let ghost start = line_views(v@);
    let mut i: usize = 0;
    while i < tail.len()
        invariant
            0 <= i <= tail.len(),
            line_views(v@) == start + line_views(tail@).take(i as int),
        decreases tail.len() - i,
    {
        let ghost before = v@;
        v.push(owned(tail[i].as_str()));
        assert(line_views(v@) =~= line_views(before).push(tail@[i as int]@));
        assert(line_views(tail@).take(i + 1) =~= line_views(tail@).take(i as int).push(tail@[i as int]@));
        i += 1;
    }
    assert(line_views(tail@).take(tail.len() as int) =~= line_views(tail@));
}

/// The summary of the counters of a benchmark function
#[derive(Clone, Copy, Debug)]
pub struct CallgrindSummary {
    pub l1_instructions: u64,
    pub l1_data_hits: u64,
    pub l3_hits: u64,
    pub ram_hits: u64,
    pub total_memory_rw: u64,
    pub cycles: u64,
}

impl CallgrindStats {
    /// The counts of the summary computed without bounds: the RAM hits are the LL misses, the
    /// LL hits the L1 misses that are no RAM hits, the L1 data hits the memory accesses that are
    /// no instruction reads and no LL accesses, and the estimated cycles weigh L1 accesses with
    /// 1, LL hits with 5 and RAM hits with 35.
    pub open spec fn ram_hits_spec(self) -> int {
        self.l3_instructions_cache_misses + self.l3_data_cache_read_misses
            + self.l3_data_cache_write_misses
    }

    pub open spec fn l3_hits_spec(self) -> int {
        self.l1_instructions_cache_read_misses + self.l1_data_cache_read_misses
            + self.l1_data_cache_write_misses - self.ram_hits_spec()
    }

    pub open spec fn total_memory_rw_spec(self) -> int {
        self.l1_instructions_cache_reads + self.total_data_cache_reads + self.total_data_cache_writes
    }

    pub open spec fn l1_data_hits_spec(self) -> int {
        self.total_memory_rw_spec() - self.l1_instructions_cache_reads - (self.ram_hits_spec()
            + self.l3_hits_spec())
    }

    pub open spec fn cycles_spec(self) -> int {
        self.l1_instructions_cache_reads + self.l1_data_hits_spec() + 5 * self.l3_hits_spec() + 35
            * self.ram_hits_spec()
    }

    /// Every count of the summary is a `u64`: the cache counters add up.
    pub open spec fn summarizable(self) -> bool {
        &&& 0 <= self.l3_hits_spec()
        &&& 0 <= self.l1_data_hits_spec()
        &&& self.total_memory_rw_spec() <= u64::MAX
        &&& self.l1_instructions_cache_read_misses + self.l1_data_cache_read_misses
            + self.l1_data_cache_write_misses <= u64::MAX
        &&& self.cycles_spec() <= u64::MAX
    }

    /// Summarize the counters; the counters must add up
    pub fn summarize(&self) -> (r: CallgrindSummary)
        requires
            self.summarizable(),
        ensures
            r.l1_instructions == self.l1_instructions_cache_reads,
            r.l1_data_hits == self.l1_data_hits_spec(),
            r.l3_hits == self.l3_hits_spec(),
            r.ram_hits == self.ram_hits_spec(),
            r.total_memory_rw == self.total_memory_rw_spec(),
            r.cycles == self.cycles_spec(),
            r.total_memory_rw == r.l1_data_hits + r.l1_instructions + r.l3_hits + r.ram_hits,
    {
        let ram_hits = self.l3_instructions_cache_misses + self.l3_data_cache_read_misses
            + self.l3_data_cache_write_misses;
        let l1_data_accesses = self.l1_data_cache_read_misses + self.l1_data_cache_write_misses;
        let l1_miss = self.l1_instructions_cache_read_misses + l1_data_accesses;
        let l3_accesses = l1_miss;
        let l3_hits = l3_accesses - ram_hits;
        let total_memory_rw = self.l1_instructions_cache_reads + self.total_data_cache_reads
            + self.total_data_cache_writes;
        let l1_data_hits = total_memory_rw - self.l1_instructions_cache_reads - (ram_hits + l3_hits);
        let cycles = self.l1_instructions_cache_reads + l1_data_hits + (5 * l3_hits) + (35
            * ram_hits);
        CallgrindSummary {
            l1_instructions: self.l1_instructions_cache_reads,
            l1_data_hits,
            l3_hits,
            ram_hits,
            total_memory_rw,
            cycles,
        }
    }
}

} // verus!
