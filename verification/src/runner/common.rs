//! Shared pieces of the benchmark runs: the kinds of assistants, module paths and their
//! segments, and the summaries of all benchmarks.
use vstd::prelude::*;

use core::time::Duration;

use crate::api::Pipe;
use crate::runner::args::{NoCapture, Redirect};
use crate::runner::summary::BenchmarkSummary;
use crate::text::{append_str, decimal, from_chars, owned, sub_chars, to_chars, u64_to_string};

verus! {

/// The kind of an assistant function of a benchmark group
#[derive(Debug, Clone, Copy, PartialEq, Eq, Structural)]
pub enum AssistantKind {
    Setup,
    Teardown,
}

impl AssistantKind {
    /// The id of the assistant function: `setup` or `teardown`
    pub fn id(&self) -> (r: String)
        ensures
            r@ == match self {
                AssistantKind::Setup => "setup"@,
                AssistantKind::Teardown => "teardown"@,
            },
    {
        match self {
            AssistantKind::Setup => owned("setup"),
            AssistantKind::Teardown => owned("teardown"),
        }
    }
}

/// The text of each pair of strings.
pub open spec fn pair_views(v: Seq<(String, String)>) -> Seq<(Seq<char>, Seq<char>)> {
    v.map_values(|p: (String, String)| (p.0@, p.1@))
}

/// A copy of the pairs of strings
pub fn copy_pairs(v: &Vec<(String, String)>) -> (r: Vec<(String, String)>)
    ensures
        pair_views(r@) == pair_views(v@),
{
    let mut out: Vec<(String, String)> = Vec::new();
    let mut i: usize = 0;
    while i < v.len()
        invariant
            i <= v.len(),
            pair_views(out@) == pair_views(v@).take(i as int),
        decreases v.len() - i,
    {
        let ghost before = out@;
        let key = owned(v[i].0.as_str());
        let value = owned(v[i].1.as_str());
        assert(key@ == v@[i as int].0@ && value@ == v@[i as int].1@);
        out.push((key, value));
        assert(out@ == before.push((key, value)));
        assert(before.len() == i) by {
            assert(pair_views(before).len() == before.len());
        }
        assert forall|k: int| 0 <= k < i + 1 implies #[trigger] pair_views(out@)[k] == pair_views(v@)[k] by {
            assert(pair_views(out@)[k] == (out@[k].0@, out@[k].1@));
            assert(pair_views(v@)[k] == (v@[k].0@, v@[k].1@));
            if k < i {
                assert(out@[k] == before[k]);
                assert(pair_views(before)[k] == (before[k].0@, before[k].1@));
                assert(pair_views(before)[k] == pair_views(v@).take(i as int)[k]);
            }
        }
        assert(pair_views(out@) =~= pair_views(v@).take(i + 1));
        i += 1;
    }
    assert(pair_views(v@).take(i as int) =~= pair_views(v@));
    out
}

/// A setup or teardown function, run by calling the benchmark binary
#[derive(Debug)]
pub struct Assistant {
    /// Setup or teardown
    pub kind: AssistantKind,
    /// The group of the function, if it is not the one of the `main` macro
    pub group_name: Option<String>,
    /// The indices of the group and of the benchmark in it, for a function of a benchmark
    pub indices: Option<(usize, usize)>,
    /// The stream of the function that is piped into the benchmark
    pub pipe: Option<Pipe>,
    /// The environment variables of the process
    pub envs: Vec<(String, String)>,
    /// The function runs beside the benchmark rather than before or after it
    pub run_parallel: bool,
}

/// Where an output stream of an assistant's process goes
#[derive(Debug, Clone, Copy, PartialEq, Eq, Structural)]
pub enum AssistantStream {
    /// Where the process's streams go by default
    Default,
    /// To the terminal of the runner
    Inherit,
    /// Nowhere
    Null,
    /// Into a pipe that the benchmark reads
    Piped,
}

/// How an assistant's process is run
#[derive(Debug)]
pub struct AssistantLaunch {
    /// The arguments handed to the benchmark binary
    pub args: Vec<String>,
    /// The environment variables of the process
    pub envs: Vec<(String, String)>,
    /// Where stdout goes
    pub stdout: AssistantStream,
    /// Where stderr goes
    pub stderr: AssistantStream,
    /// The process is spawned and handed back rather than waited for
    pub spawn: bool,
    /// Where it is waited for: its output is captured (and logged) rather than passed through
    pub capture: bool,
}

/// The arguments of the benchmark binary that run an assistant: `--iai-run`, the group name
/// if there is one, the id of the kind, and the indices if there are any.
pub open spec fn assistant_args(a: Assistant) -> Seq<Seq<char>> {
    seq!["--iai-run"@] + group_args(a.group_name) + seq![kind_id(a.kind)] + index_args(a.indices)
}

/// The group name as an argument, if there is one.
pub open spec fn group_args(group_name: Option<String>) -> Seq<Seq<char>> {
    match group_name {
        Some(g) => seq![g@],
        None => Seq::empty(),
    }
}

/// The indices as arguments, if there are any.
pub open spec fn index_args(indices: Option<(usize, usize)>) -> Seq<Seq<char>> {
    match indices {
        Some((g, b)) => seq![decimal(g as nat), decimal(b as nat)],
        None => Seq::empty(),
    }
}

/// The id of a kind of assistant.
pub open spec fn kind_id(kind: AssistantKind) -> Seq<char> {
    match kind {
        AssistantKind::Setup => "setup"@,
        AssistantKind::Teardown => "teardown"@,
    }
}

/// Where stdout of an assistant goes: into the pipe if it is piped, else as `--nocapture`
/// sends it.
pub open spec fn assistant_stdout(pipe: Option<Pipe>, nocapture: NoCapture) -> AssistantStream {
    if pipe == Some(Pipe::Stdout) {
        AssistantStream::Piped
    } else {
        match nocapture {
            NoCapture::Stderr => AssistantStream::Null,
            NoCapture::Stdout => AssistantStream::Inherit,
            _ => AssistantStream::Default,
        }
    }
}

/// Where stderr of an assistant goes: into the pipe if it is piped, else as `--nocapture`
/// sends it.
pub open spec fn assistant_stderr(pipe: Option<Pipe>, nocapture: NoCapture) -> AssistantStream {
    if pipe == Some(Pipe::Stderr) {
        AssistantStream::Piped
    } else {
        match nocapture {
            NoCapture::Stderr => AssistantStream::Inherit,
            NoCapture::Stdout => AssistantStream::Null,
            _ => AssistantStream::Default,
        }
    }
}

/// The stream of a redirect of `--nocapture`
fn stream_of(redirect: Redirect) -> (r: AssistantStream)
    ensures
        r == match redirect {
            Redirect::Inherit => AssistantStream::Inherit,
            Redirect::Null => AssistantStream::Null,
        },
{
    match redirect {
        Redirect::Inherit => AssistantStream::Inherit,
        Redirect::Null => AssistantStream::Null,
    }
}

impl Assistant {
    /// The setup or teardown of the `main` macro
    pub fn new_main_assistant(kind: AssistantKind, envs: Vec<(String, String)>, run_parallel: bool) -> (r: Assistant)
        ensures
            r.kind == kind,
            r.group_name is None,
            r.indices is None,
            r.pipe is None,
            r.envs == envs,
            r.run_parallel == run_parallel,
    {
        Assistant { kind, group_name: None, indices: None, pipe: None, envs, run_parallel }
    }

    /// The setup or teardown of a `binary_benchmark_group` or `library_benchmark_group`
    pub fn new_group_assistant(
        kind: AssistantKind,
        group_name: &str,
        envs: Vec<(String, String)>,
        run_parallel: bool,
    ) -> (r: Assistant)
        ensures
            r.kind == kind,
            r.group_name matches Some(g) && g@ == group_name@,
            r.indices is None,
            r.pipe is None,
            r.envs == envs,
            r.run_parallel == run_parallel,
    {
        Assistant {
            kind,
            group_name: Some(owned(group_name)),
            indices: None,
            pipe: None,
            envs,
            run_parallel,
        }
    }

    /// The setup or teardown function of a benchmark (of binary benchmarks), at the indices of
    /// its group and of the benchmark in the group
    pub fn new_bench_assistant(
        kind: AssistantKind,
        group_name: &str,
        indices: (usize, usize),
        pipe: Option<Pipe>,
        envs: Vec<(String, String)>,
        run_parallel: bool,
    ) -> (r: Assistant)
        ensures
            r.kind == kind,
            r.group_name matches Some(g) && g@ == group_name@,
            r.indices == Some(indices),
            r.pipe == pipe,
            r.envs == envs,
            r.run_parallel == run_parallel,
    {
        Assistant {
            kind,
            group_name: Some(owned(group_name)),
            indices: Some(indices),
            pipe,
            envs,
            run_parallel,
        }
    }

    /// How to run this assistant by calling the benchmark binary; `None` where a baseline is
    /// loaded, as the assistant is then not run. It is spawned and handed back where a stream
    /// of it is piped or it runs in parallel; otherwise it is waited for, its output captured
    /// unless `--nocapture` lets some of it through.
    pub fn launch(&self, load_baseline: bool, nocapture: NoCapture) -> (r: Option<AssistantLaunch>)
        ensures
            load_baseline ==> r is None,
            !load_baseline ==> (r matches Some(l) && {
                &&& string_views(l.args@) == assistant_args(*self)
                &&& pair_views(l.envs@) == pair_views(self.envs@)
                &&& l.stdout == assistant_stdout(self.pipe, nocapture)
                &&& l.stderr == assistant_stderr(self.pipe, nocapture)
                &&& l.spawn == (self.pipe is Some || self.run_parallel)
                &&& l.capture == (nocapture == NoCapture::False)
            }),
    {
        if load_baseline {
            return None;
        }
        let mut args: Vec<String> = Vec::new();
        args.push(owned("--iai-run"));
        let ghost a0 = string_views(args@);
        assert(a0 =~= seq!["--iai-run"@]);
        match &self.group_name {
            Some(g) => {
                args.push(owned(g.as_str()));
            },
            None => {},
        }
        let ghost a1 = string_views(args@);
        args.push(self.kind.id());
        let ghost a2 = string_views(args@);
        match self.indices {
            Some((g, b)) => {
                args.push(u64_to_string(g as u64));
                args.push(u64_to_string(b as u64));
            },
            None => {},
        }
        proof {
            assert(a1 =~= seq!["--iai-run"@] + group_args(self.group_name));
            assert(a2 =~= seq!["--iai-run"@] + group_args(self.group_name) + seq![kind_id(self.kind)]);
            assert(string_views(args@) =~= assistant_args(*self));
        }
        let (mut stdout, mut stderr) = match nocapture.redirects() {
            Some((out, err)) => (stream_of(out), stream_of(err)),
            None => (AssistantStream::Default, AssistantStream::Default),
        };
        match self.pipe {
            Some(Pipe::Stdout) => {
                stdout = AssistantStream::Piped;
            },
            Some(Pipe::Stderr) => {
                stderr = AssistantStream::Piped;
            },
            None => {},
        }
        let capture = match nocapture {
            NoCapture::False => true,
            _ => false,
        };
        Some(
            AssistantLaunch {
                args,
                envs: copy_pairs(&self.envs),
                stdout,
                stderr,
                spawn: self.pipe.is_some() || self.run_parallel,
                capture,
            },
        )
    }
}

/// Some summary in `s` regressed.
pub open spec fn any_regressed(s: Seq<BenchmarkSummary>) -> bool {
    exists|i: int| 0 <= i < s.len() && (#[trigger] s[i]).regressed
}

/// The summaries of the benchmark runs (binary and library benchmarks) and their execution
/// time, from which a final summary is printed after all benchmarks
#[derive(Debug)]
pub struct BenchmarkSummaries {
    /// The benchmark summaries
    pub summaries: Vec<BenchmarkSummary>,
    /// The execution time of all benchmarks
    pub total_time: Option<Duration>,
}

impl Default for BenchmarkSummaries {
    /// No summaries and no execution time
    fn default() -> (r: Self)
        ensures
            r.summaries@ == Seq::<BenchmarkSummary>::empty(),
            r.total_time is None,
    {
        BenchmarkSummaries { summaries: Vec::new(), total_time: None }
    }
}

impl BenchmarkSummaries {
    /// Add a [`BenchmarkSummary`]
    pub fn add_summary(&mut self, summary: BenchmarkSummary)
        ensures
            final(self).summaries@ == old(self).summaries@.push(summary),
            final(self).total_time == old(self).total_time,
    {
        self.summaries.push(summary);
    }

    /// Add the summaries of `other` after these; the execution time of `other` is ignored
    pub fn add_other(&mut self, other: BenchmarkSummaries)
        ensures
            final(self).summaries@ == old(self).summaries@ + other.summaries@,
            final(self).total_time == old(self).total_time,
    {
        let ghost start = self.summaries@;
        let mut i: usize = 0;
        assert(other.summaries@.take(0) =~= Seq::<BenchmarkSummary>::empty());
        assert(start + other.summaries@.take(0) =~= start);
        while i < other.summaries.len()
            invariant
                i <= other.summaries.len(),
                self.summaries@ == start + other.summaries@.take(i as int),
                self.total_time == old(self).total_time,
            decreases other.summaries.len() - i,
        {
            self.add_summary(other.summaries[i]);
            assert(other.summaries@.take(i + 1) =~= other.summaries@.take(i as int).push(
                other.summaries@[i as int],
            ));
            assert(start + other.summaries@.take(i + 1) =~= (start + other.summaries@.take(
                i as int,
            )).push(other.summaries@[i as int]));
            i += 1;
        }
        assert(other.summaries@.take(i as int) =~= other.summaries@);
    }

    /// Return true if any benchmark regressed
    pub fn is_regressed(&self) -> (r: bool)
        ensures
            r == any_regressed(self.summaries@),
    {
        let mut i: usize = 0;
        while i < self.summaries.len()
            invariant
                i <= self.summaries.len(),
                forall|j: int| 0 <= j < i ==> !(#[trigger] self.summaries@[j]).regressed,
            decreases self.summaries.len() - i,
        {
            if self.summaries[i].is_regressed() {
                return true;
            }
            i += 1;
        }
        false
    }

    /// The number of benchmarks
    pub fn num_benchmarks(&self) -> (r: usize)
        ensures
            r == self.summaries@.len(),
    {
        self.summaries.len()
    }
}

/// Adding the summaries of other runs counts their benchmarks too, and the whole regressed
/// if and only if one of the two parts regressed.
pub proof fn lemma_add_other_combines(a: Seq<BenchmarkSummary>, b: Seq<BenchmarkSummary>)
    ensures
        (a + b).len() == a.len() + b.len(),
        any_regressed(a + b) <==> any_regressed(a) || any_regressed(b),
{
    if any_regressed(a) {
        let i = choose|i: int| 0 <= i < a.len() && (#[trigger] a[i]).regressed;
        assert((a + b)[i] == a[i]);
    }
    if any_regressed(b) {
        let i = choose|i: int| 0 <= i < b.len() && (#[trigger] b[i]).regressed;
        assert((a + b)[a.len() + i] == b[i]);
    }
    if any_regressed(a + b) {
        let i = choose|i: int| 0 <= i < (a + b).len() && (#[trigger] (a + b)[i]).regressed;
        if i < a.len() {
            assert(a[i] == (a + b)[i]);
        } else {
            assert(b[i - a.len()] == (a + b)[i]);
        }
    }
}

/// `::` starts at index `i` of `s`.
pub open spec fn separator_at(s: Seq<char>, i: int) -> bool {
    0 <= i && i + 1 < s.len() && s[i] == ':' && s[i + 1] == ':'
}

/// The segments of `s` from `start` on, where `i` is the first index not yet searched for a
/// `::`: the parts between the separators, found from the left, as `str::split("::")` yields
/// them.
pub open spec fn segments_from(s: Seq<char>, start: int, i: int) -> Seq<Seq<char>>
    decreases s.len() - i,
{
    if i + 2 > s.len() {
        seq![s.subrange(start, s.len() as int)]
    } else if s[i] == ':' && s[i + 1] == ':' {
        seq![s.subrange(start, i)] + segments_from(s, i + 2, i + 2)
    } else {
        segments_from(s, start, i + 1)
    }
}

/// The segments of `s` between its `::` separators.
pub open spec fn segments(s: Seq<char>) -> Seq<Seq<char>> {
    segments_from(s, 0, 0)
}

/// The text of each string.
pub open spec fn string_views(v: Seq<String>) -> Seq<Seq<char>> {
    v.map_values(|x: String| x@)
}

/// The segments of `s` between its `::` separators, as `str::split("::")` yields them
pub fn split_segments(s: &str) -> (r: Vec<String>)
    ensures
        string_views(r@) == segments(s@),
{
    let v = to_chars(s);
    let mut out: Vec<String> = Vec::new();
    let mut start: usize = 0;
    let mut i: usize = 0;
    while v.len() - i >= 2
        invariant
            v@ == s@,
            start <= i <= v.len(),
            string_views(out@) + segments_from(v@, start as int, i as int) == segments(s@),
        decreases v.len() - i,
    {
        if v[i] == ':' && v[i + 1] == ':' {
            let part = sub_chars(&v, start, i);
            let ghost before = string_views(out@);
            out.push(from_chars(&part));
            assert(string_views(out@) =~= before.push(part@));
            assert(seq![v@.subrange(start as int, i as int)] + segments_from(v@, i + 2, i + 2)
                == segments_from(v@, start as int, i as int));
            assert(before + segments_from(v@, start as int, i as int) =~= string_views(out@)
                + segments_from(v@, i + 2, i + 2));
            i = i + 2;
            start = i;
        } else {
            i = i + 1;
        }
    }
    let part = sub_chars(&v, start, v.len());
    let ghost before = string_views(out@);
    out.push(from_chars(&part));
    assert(string_views(out@) =~= before.push(part@));
    assert(before + segments_from(v@, start as int, i as int) =~= string_views(out@));
    out
}

/// The index of the last `::` in `s`.
pub open spec fn last_separator(s: Seq<char>) -> Option<int> {
    if exists|i: int| #[trigger] separator_at(s, i) {
        Some(choose|i: int| #[trigger] separator_at(s, i) && forall|j: int| i < j ==> !separator_at(s, j))
    } else {
        None
    }
}

/// The last `::` found from the end is the one `last_separator` picks.
proof fn lemma_last_separator(s: Seq<char>, i: int)
    requires
        separator_at(s, i),
        forall|j: int| i < j ==> !#[trigger] separator_at(s, j),
    ensures
        last_separator(s) == Some(i),
{
    let c = choose|c: int| #[trigger] separator_at(s, c) && forall|j: int| c < j ==> !separator_at(s, j);
    assert(separator_at(s, c) && forall|j: int| c < j ==> !separator_at(s, j));
    if c < i {
        assert(!separator_at(s, i));
    }
    if i < c {
        assert(!separator_at(s, c));
    }
}

/// A module path like `file::group::benchmark::id`
#[derive(Debug, PartialEq, Eq, Clone)]
pub struct ModulePath(pub String);

impl ModulePath {
    /// The path as text
    pub open spec fn text(self) -> Seq<char> {
        self.0@
    }

    /// Create a new module path
    pub fn new(path: &str) -> (r: ModulePath)
        ensures
            r.text() == path@,
    {
        ModulePath(owned(path))
    }

    /// This path with `::path` appended
    pub fn join(&self, path: &str) -> (r: ModulePath)
        ensures
            r.text() == self.text() + "::"@ + path@,
    {
        let mut v = to_chars(self.0.as_str());
        append_str(&mut v, "::");
        append_str(&mut v, path);
        ModulePath(from_chars(&v))
    }

    /// The path as text
    pub fn as_str(&self) -> (r: &str)
        ensures
            r@ == self.text(),
    {
        self.0.as_str()
    }

    /// The path as text
    pub fn to_string(&self) -> (r: String)
        ensures
            r@ == self.text(),
    {
        owned(self.0.as_str())
    }

    /// The index of the last `::`
    fn last_separator_index(&self) -> (r: Option<usize>)
        ensures
            r matches Some(i) ==> last_separator(self.text()) == Some(i as int) && i + 2
                <= self.text().len(),
            r is None ==> last_separator(self.text()) is None,
    {
        let v = to_chars(self.0.as_str());
        let mut i: usize = v.len();
        while i >= 2
            invariant
                i <= v.len(),
                v@ == self.text(),
                forall|j: int| i - 1 <= j ==> !#[trigger] separator_at(v@, j),
            decreases i,
        {
            if v[i - 2] == ':' && v[i - 1] == ':' {
                proof {
                    lemma_last_separator(v@, i - 2);
                }
                return Some(i - 2);
            }
            i -= 1;
        }
        assert(forall|j: int| !#[trigger] separator_at(v@, j));
        None
    }

    /// The last segment: the part after the last `::`, if there is one
    pub fn last(&self) -> (r: Option<ModulePath>)
        ensures
            match last_separator(self.text()) {
                Some(i) => r matches Some(p) && p.text() == self.text().skip(i + 2),
                None => r is None,
            },
    {
        match self.last_separator_index() {
            Some(i) => {
                let v = to_chars(self.0.as_str());
                assert(v@.len() == self.text().len());
                let tail = sub_chars(&v, i + 2, v.len());
                assert(tail@ =~= self.text().skip(i + 2));
                Some(ModulePath(from_chars(&tail)))
            },
            None => None,
        }
    }

    /// The parent: the part before the last `::`, if there is one
    pub fn parent(&self) -> (r: Option<ModulePath>)
        ensures
            match last_separator(self.text()) {
                Some(i) => r matches Some(p) && p.text() == self.text().take(i),
                None => r is None,
            },
    {
        match self.last_separator_index() {
            Some(i) => {
                let v = to_chars(self.0.as_str());
                let head = sub_chars(&v, 0, i);
                assert(head@ =~= self.text().take(i as int));
                Some(ModulePath(from_chars(&head)))
            },
            None => None,
        }
    }
}

/// The parent joined with the last segment gives back the module path: `parent` and `last`
/// split a path at its last `::`, and `join` puts a `::` between its parts.
pub proof fn lemma_parent_join_last(p: ModulePath)
    requires
        last_separator(p.text()) is Some,
    ensures
        ({
            let i = last_separator(p.text()).unwrap();
            p.text().take(i) + "::"@ + p.text().skip(i + 2) == p.text()
        }),
{
    let s = p.text();
    let j = choose|j: int| #[trigger] separator_at(s, j);
    lemma_last_separator_exists(s, j);
    let i = last_separator(s).unwrap();
    assert(separator_at(s, i));
    reveal_strlit("::");
    assert(s.take(i) + "::"@ + s.skip(i + 2) =~= s);
}

/// Where `s` has a `::`, it has a last one.
proof fn lemma_last_separator_exists(s: Seq<char>, j: int)
    requires
        separator_at(s, j),
    ensures
        exists|i: int| #[trigger] separator_at(s, i) && forall|m: int| i < m ==> !separator_at(s, m),
    decreases s.len() - j,
{
    if exists|m: int| j < m && #[trigger] separator_at(s, m) {
        let m = choose|m: int| j < m && #[trigger] separator_at(s, m);
        lemma_last_separator_exists(s, m);
    } else {
        assert(separator_at(s, j) && forall|m: int| j < m ==> !separator_at(s, m));
    }
}

/// `last` and `parent` undo `join` with a segment that holds no `:`: the joined path splits at
/// the `::` that `join` put in, into the path and the segment; and such a segment alone has no
/// parent and no last segment.
pub proof fn lemma_join_last_parent(p: ModulePath, seg: Seq<char>)
    requires
        !seg.contains(':'),
    ensures
        ({
            let j = p.text() + "::"@ + seg;
            &&& last_separator(j) == Some(p.text().len() as int)
            &&& j.take(p.text().len() as int) == p.text()
            &&& j.skip(p.text().len() + 2int) == seg
        }),
        last_separator(seg) is None,
{
    reveal_strlit("::");
    let n = p.text().len() as int;
    let j = p.text() + "::"@ + seg;
    assert("::"@ =~= seq![':', ':']);
    assert(j[n] == ':' && j[n + 1] == ':');
    assert forall|m: int| n < m implies !separator_at(j, m) by {
        if 0 <= m && m + 1 < j.len() {
            assert(j[m + 1] == seg[m + 1 - n - 2]);
            assert(seg[m + 1 - n - 2] != ':') by {
                if seg[m + 1 - n - 2] == ':' {
                    assert(seg.contains(':'));
                }
            }
        }
    }
    lemma_last_separator(j, n);
    assert(j.take(n) =~= p.text());
    assert(j.skip(n + 2) =~= seg);
    assert forall|m: int| !separator_at(seg, m) by {
        if 0 <= m && m + 1 < seg.len() && seg[m] == ':' {
            assert(seg.contains(':'));
        }
    }
}

} // verus!
