//! The parser of the log file that DHAT writes: the lines after the header give the details and
//! the metrics (`Total`, `At t-gmax`, `At t-end`, `Reads` and `Writes`).
use vstd::prelude::*;

use crate::api::DhatMetricKind;
use crate::callgrind::line_views;
use crate::collections::{kv_distinct, kv_insert, kv_position, lemma_kv_insert, lemma_kv_position};
use crate::pattern::{capture_group, compile, is_match, regex_capture, regex_is_match, regex_replace_all, replace_all, Pattern};
use crate::text::{eq_str, owned, parse_u64, parse_u64_exec, to_chars, trim, trim_chars};

verus! {

/// The pattern of an empty line of a valgrind log: only the prefix with the pid.
pub const EMPTY_LINE_PATTERN: &'static str = r"^\s*(==|--)([0-9:.]+\s+)?[0-9]+(==|--)\s*$";

/// The pattern of a field of a valgrind log: `==pid== key: value`.
pub const EXTRACT_FIELDS_PATTERN: &'static str =
    r"^\s*(==|--)([0-9:.]+\s+)?[0-9]+(==|--)\s*(?<key>.*?)\s*:\s*(?<value>.*)\s*$";

/// The pattern of a line of a valgrind log, the prefix with the pid stripped: `==pid==rest`.
pub const STRIP_PREFIX_PATTERN: &'static str = r"^\s*(==|--)([0-9:.]+\s+)?[0-9]+(==|--)(?<rest>.*)$";

/// The thousands separators between digits.
pub const FIXUP_NUMBERS_PATTERN: &'static str = r"([0-9]),([0-9])";

/// A metric value: `bytes` bytes, optionally ` in blocks`.
pub const METRICS_PATTERN: &'static str = r"^\s*(?<bytes>[0-9]+)\s*bytes(?:\s*in\s*(?<blocks>[0-9]+))?.*$";

/// The source texts of the patterns the parser reads the lines with.
pub ghost struct LogSources {
    pub empty_line: Seq<char>,
    pub extract_fields: Seq<char>,
    pub strip_prefix: Seq<char>,
    pub fixup_numbers: Seq<char>,
    pub metrics: Seq<char>,
}

/// The compiled patterns the parser reads the lines with
#[derive(Debug)]
pub struct LogPatterns {
    pub empty_line: Pattern,
    pub extract_fields: Pattern,
    pub strip_prefix: Pattern,
    pub fixup_numbers: Pattern,
    pub metrics: Pattern,
}

impl LogPatterns {
    /// The source texts of the patterns.
    pub open spec fn sources(&self) -> LogSources {
        LogSources {
            empty_line: self.empty_line.source(),
            extract_fields: self.extract_fields.source(),
            strip_prefix: self.strip_prefix.source(),
            fixup_numbers: self.fixup_numbers.source(),
            metrics: self.metrics.source(),
        }
    }

    /// Compile the patterns of a valgrind log; `None` if the `regex` crate rejects one of them.
    pub fn new() -> (r: Option<LogPatterns>)
        ensures
            r matches Some(p) ==> p.sources() == (LogSources {
                empty_line: EMPTY_LINE_PATTERN@,
                extract_fields: EXTRACT_FIELDS_PATTERN@,
                strip_prefix: STRIP_PREFIX_PATTERN@,
                fixup_numbers: FIXUP_NUMBERS_PATTERN@,
                metrics: METRICS_PATTERN@,
            }),
            r is None <==> !(regex_valid_all()),
    {
        let empty_line = compile(EMPTY_LINE_PATTERN);
        let extract_fields = compile(EXTRACT_FIELDS_PATTERN);
        let strip_prefix = compile(STRIP_PREFIX_PATTERN);
        let fixup_numbers = compile(FIXUP_NUMBERS_PATTERN);
        let metrics = compile(METRICS_PATTERN);
        match (empty_line, extract_fields, strip_prefix, fixup_numbers, metrics) {
            (Ok(empty_line), Ok(extract_fields), Ok(strip_prefix), Ok(fixup_numbers), Ok(metrics)) => Some(
                LogPatterns { empty_line, extract_fields, strip_prefix, fixup_numbers, metrics },
            ),
            _ => None,
        }
    }
}

/// The `regex` crate accepts every pattern of a valgrind log.
pub open spec fn regex_valid_all() -> bool {
    &&& crate::pattern::regex_valid(EMPTY_LINE_PATTERN@)
    &&& crate::pattern::regex_valid(EXTRACT_FIELDS_PATTERN@)
    &&& crate::pattern::regex_valid(STRIP_PREFIX_PATTERN@)
    &&& crate::pattern::regex_valid(FIXUP_NUMBERS_PATTERN@)
    &&& crate::pattern::regex_valid(METRICS_PATTERN@)
}

/// Where the parser is in the log
#[derive(Debug, Clone, Copy, PartialEq, Eq, Structural)]
pub enum LogState {
    /// The empty lines after the header
    HeaderSpace,
    /// The lines before the metrics: the details
    Body,
    /// The metric lines
    Fields,
    /// The lines after the metrics
    Footer,
}

/// Why the metrics of a DHAT log could not be read
#[derive(Debug, Clone, Copy, PartialEq, Eq, Structural)]
pub enum DhatLogError {
    /// A count of bytes does not fit in a `u64`
    Bytes,
    /// A metric of bytes and blocks has no count of blocks
    Blocks,
}

impl DhatLogError {
    /// The message of this error
    pub fn message(&self) -> (r: String)
        ensures
            match self {
                DhatLogError::Bytes => r@ == "number too large to fit in target type"@,
                DhatLogError::Blocks => r@ == "Error parsing blocks"@,
            },
    {
        match self {
            DhatLogError::Bytes => owned("number too large to fit in target type"),
            DhatLogError::Blocks => owned("Error parsing blocks"),
        }
    }
}

/// The state of the parser after some lines.
pub ghost struct LogView {
    pub state: LogState,
    pub metrics: Seq<(DhatMetricKind, u64)>,
    pub details: Seq<Seq<char>>,
    /// A line after the metrics was reached: parsing is complete
    pub stopped: bool,
    pub error: Option<DhatLogError>,
    /// A named group of a pattern that matched did not take part in the match
    pub unreadable: bool,
}

/// The characters `total`.
pub open spec fn total_key() -> Seq<char> {
    seq!['t', 'o', 't', 'a', 'l']
}

/// `char::to_ascii_lowercase`
pub open spec fn ascii_lower_char(c: char) -> char {
    if 'A' <= c && c <= 'Z' {
        ((c as u32) + 32) as char
    } else {
        c
    }
}

/// `str::to_ascii_lowercase`
pub open spec fn ascii_lowercase(s: Seq<char>) -> Seq<char> {
    s.map_values(|c: char| ascii_lower_char(c))
}

/// Set the counts of bytes and blocks of a metric; an error if there is no count of blocks.
pub open spec fn with_pair(
    v: LogView,
    bytes_kind: DhatMetricKind,
    blocks_kind: DhatMetricKind,
    bytes: u64,
    blocks: Option<u64>,
) -> LogView {
    let m = kv_insert(v.metrics, bytes_kind, bytes);
    match blocks {
        Some(b) => LogView { metrics: kv_insert(m, blocks_kind, b), ..v },
        None => LogView { metrics: m, error: Some(DhatLogError::Blocks), ..v },
    }
}

/// A metric line with the key `key` and the value `value` (the thousands separators removed).
pub open spec fn metric_line(v: LogView, key: Seq<char>, value: Seq<char>, src: LogSources) -> LogView {
    match regex_capture(src.metrics, value, "bytes"@) {
        None => v,
        Some(None) => LogView { unreadable: true, ..v },
        Some(Some(t)) => match parse_u64(t) {
            None => LogView { error: Some(DhatLogError::Bytes), ..v },
            Some(bytes) => {
                let blocks = match regex_capture(src.metrics, value, "blocks"@) {
                    Some(Some(b)) => parse_u64(b),
                    _ => None,
                };
                if key == "Total"@ {
                    with_pair(v, DhatMetricKind::TotalBytes, DhatMetricKind::TotalBlocks, bytes, blocks)
                } else if key == "At t-gmax"@ {
                    with_pair(v, DhatMetricKind::AtTGmaxBytes, DhatMetricKind::AtTGmaxBlocks, bytes, blocks)
                } else if key == "At t-end"@ {
                    with_pair(v, DhatMetricKind::AtTEndBytes, DhatMetricKind::AtTEndBlocks, bytes, blocks)
                } else if key == "Reads"@ {
                    LogView { metrics: kv_insert(v.metrics, DhatMetricKind::ReadsBytes, bytes), ..v }
                } else if key == "Writes"@ {
                    LogView { metrics: kv_insert(v.metrics, DhatMetricKind::WritesBytes, bytes), ..v }
                } else {
                    v
                }
            },
        },
    }
}

/// A line in the metrics: a field sets its metric, any other line ends the metrics.
pub open spec fn fields_line(v: LogView, line: Seq<char>, src: LogSources) -> LogView {
    match regex_capture(src.extract_fields, line, "key"@) {
        None => LogView { state: LogState::Footer, ..v },
        Some(k) => match (k, regex_capture(src.extract_fields, line, "value"@)) {
            (Some(key), Some(Some(value))) => metric_line(
                v,
                key,
                regex_replace_all(src.fixup_numbers, value, "$1$2"@),
                src,
            ),
            _ => LogView { unreadable: true, ..v },
        },
    }
}

/// A line of the details: the field `Total` starts the metrics; any other line is a detail,
/// without the prefix with the pid where it has one.
pub open spec fn body_line(v: LogView, line: Seq<char>, src: LogSources) -> LogView {
    match regex_capture(src.extract_fields, line, "key"@) {
        Some(None) => LogView { unreadable: true, ..v },
        Some(Some(key)) if ascii_lowercase(key) == total_key() => fields_line(
            LogView { state: LogState::Fields, ..v },
            line,
            src,
        ),
        _ => match regex_capture(src.strip_prefix, line, "rest"@) {
            None => LogView { details: v.details.push(line), ..v },
            Some(Some(rest)) => LogView { details: v.details.push(rest), ..v },
            Some(None) => LogView { unreadable: true, ..v },
        },
    }
}

/// The parser after one more line.
pub open spec fn log_step(v: LogView, line: Seq<char>, src: LogSources) -> LogView {
    if v.stopped || v.error is Some || v.unreadable {
        v
    } else {
        match v.state {
            LogState::HeaderSpace => if regex_is_match(src.empty_line, line) {
                v
            } else {
                body_line(LogView { state: LogState::Body, ..v }, line, src)
            },
            LogState::Body => body_line(v, line, src),
            LogState::Fields => fields_line(v, line, src),
            LogState::Footer => LogView { stopped: true, ..v },
        }
    }
}

/// The parser after the lines, one after the other.
pub open spec fn log_fold(v: LogView, lines: Seq<Seq<char>>, src: LogSources) -> LogView
    decreases lines.len(),
{
    if lines.len() == 0 {
        v
    } else {
        log_step(log_fold(v, lines.drop_last(), src), lines.last(), src)
    }
}

/// The parser before the first line after the header.
pub open spec fn log_start() -> LogView {
    LogView {
        state: LogState::HeaderSpace,
        metrics: Seq::empty(),
        details: Seq::empty(),
        stopped: false,
        error: None,
        unreadable: false,
    }
}

/// The details without the blank lines at their end.
pub open spec fn drop_blank_tail(d: Seq<Seq<char>>) -> Seq<Seq<char>>
    decreases d.len(),
{
    if d.len() > 0 && trim(d.last()).len() == 0 {
        drop_blank_tail(d.drop_last())
    } else {
        d
    }
}

/// The view of the parser with an outcome of a line.
pub open spec fn outcome_view(
    state: LogState,
    metrics: Seq<(DhatMetricKind, u64)>,
    details: Seq<String>,
    outcome: LineOutcome,
) -> LogView {
    LogView {
        state,
        metrics,
        details: line_views(details),
        stopped: outcome is Stop,
        error: match outcome {
            LineOutcome::Failed(e) => Some(e),
            _ => None,
        },
        unreadable: outcome is Unreadable,
    }
}

/// What a line did to the parse
#[derive(Debug, Clone, Copy, PartialEq, Eq, Structural)]
pub enum LineOutcome {
    /// Go on with the next line
    Continue,
    /// Parsing is complete
    Stop,
    /// The metrics cannot be read
    Failed(DhatLogError),
    /// A named group of a pattern that matched did not take part in the match
    Unreadable,
}

/// `ascii_lowercase(key) == "total"`
fn is_total_key(key: &Vec<char>) -> (r: bool)
    ensures
        r == (ascii_lowercase(key@) == total_key()),
{
    if key.len() != 5 {
        assert(ascii_lowercase(key@).len() != total_key().len());
        return false;
    }
    let target: Vec<char> = vec!['t', 'o', 't', 'a', 'l'];
    let upper: Vec<char> = vec!['T', 'O', 'T', 'A', 'L'];
    assert(target@ == total_key());
    let mut i: usize = 0;
    while i < 5
        invariant
            0 <= i <= 5,
            key.len() == 5,
            target@ == total_key(),
            upper@ == seq!['T', 'O', 'T', 'A', 'L'],
            forall|j: int| 0 <= j < i ==> ascii_lower_char(#[trigger] key@[j]) == target@[j],
        decreases 5 - i,
    {
        let c = key[i];
        if c != target[i] && c != upper[i] {
            assert(ascii_lowercase(key@)[i as int] != total_key()[i as int]) by {
                assert(ascii_lower_char('t') == 't');
                assert(ascii_lower_char('T') == 't');
                assert(ascii_lower_char('O') == 'o');
                assert(ascii_lower_char('A') == 'a');
                assert(ascii_lower_char('L') == 'l');
                if 'A' <= c && c <= 'Z' {
                    assert((c as u32) + 32 != 't' as u32 || c == 'T');
                }
            }
            return false;
        }
        proof {
            assert(ascii_lower_char('T') == 't');
            assert(ascii_lower_char('O') == 'o');
            assert(ascii_lower_char('A') == 'a');
            assert(ascii_lower_char('L') == 'l');
        }
        i += 1;
    }
    assert(ascii_lowercase(key@) =~= total_key());
    true
}

/// `IndexMap::insert` on the metrics kept as pairs: replace the count of `k` in place, or
/// append it.
fn metrics_insert(m: &mut Vec<(DhatMetricKind, u64)>, k: DhatMetricKind, v: u64)
    requires
        kv_distinct(old(m)@),
    ensures
        kv_distinct(final(m)@),
        final(m)@ == kv_insert(old(m)@, k, v),
{
    proof {
        lemma_kv_insert(m@, k, v);
        lemma_kv_position(m@, k);
    }
    let ghost start = m@;
    let mut i: usize = 0;
    while i < m.len()
        invariant
            0 <= i <= m.len(),
            m@ == start,
            start == old(m)@,
            kv_distinct(start),
            kv_position(start, k) matches Some(p) ==> i <= p && 0 <= p < start.len() && start[p].0 == k,
        decreases m.len() - i,
    {
        if m[i].0 == k {
            proof {
                lemma_kv_position(start, k);
                assert(start[i as int].0 == k);
                assert(kv_position(start, k) == Some(i as int));
            }
            m.set(i, (k, v));
            assert(m@ =~= start.update(i as int, (k, v)));
            return;
        }
        i += 1;
    }
    m.push((k, v));
}

/// The counts of bytes and blocks of a metric.
fn set_pair(
    m: &mut Vec<(DhatMetricKind, u64)>,
    bytes_kind: DhatMetricKind,
    blocks_kind: DhatMetricKind,
    bytes: u64,
    blocks: Option<u64>,
    Ghost(v): Ghost<LogView>,
) -> (r: LineOutcome)
    requires
        kv_distinct(old(m)@),
        v.metrics == old(m)@,
        !v.stopped,
        v.error is None,
        !v.unreadable,
    ensures
        kv_distinct(final(m)@),
        with_pair(v, bytes_kind, blocks_kind, bytes, blocks) == (LogView {
            metrics: final(m)@,
            stopped: r is Stop,
            error: match r {
                LineOutcome::Failed(e) => Some(e),
                _ => None,
            },
            unreadable: r is Unreadable,
            ..v
        }),
{
    metrics_insert(m, bytes_kind, bytes);
    match blocks {
        Some(b) => {
            metrics_insert(m, blocks_kind, b);
            LineOutcome::Continue
        },
        None => LineOutcome::Failed(DhatLogError::Blocks),
    }
}

/// The view of the parser after a line with outcome `r`.
pub open spec fn after(
    v: LogView,
    state: LogState,
    metrics: Seq<(DhatMetricKind, u64)>,
    details: Seq<Seq<char>>,
    r: LineOutcome,
) -> LogView {
    LogView {
        state,
        metrics,
        details,
        stopped: r is Stop,
        error: match r {
            LineOutcome::Failed(e) => Some(e),
            _ => None,
        },
        unreadable: r is Unreadable,
    }
}

/// The parser is still reading lines.
pub open spec fn running(v: LogView) -> bool {
    !v.stopped && v.error is None && !v.unreadable
}

/// A metric line with the key `key` and the value `value`.
fn metric_line_exec(
    p: &LogPatterns,
    key: &Vec<char>,
    value: &str,
    m: &mut Vec<(DhatMetricKind, u64)>,
    Ghost(v): Ghost<LogView>,
) -> (r: LineOutcome)
    requires
        kv_distinct(old(m)@),
        v.metrics == old(m)@,
        running(v),
    ensures
        kv_distinct(final(m)@),
        metric_line(v, key@, value@, p.sources()) == after(v, v.state, final(m)@, v.details, r),
{
    match capture_group(&p.metrics, value, "bytes") {
        None => LineOutcome::Continue,
        Some(None) => LineOutcome::Unreadable,
        Some(Some(t)) => {
            let tv = to_chars(t.as_str());
            match parse_u64_exec(&tv) {
                None => LineOutcome::Failed(DhatLogError::Bytes),
                Some(bytes) => {
                    let blocks: Option<u64> = match capture_group(&p.metrics, value, "blocks") {
                        Some(Some(b)) => {
                            let bv = to_chars(b.as_str());
                            parse_u64_exec(&bv)
                        },
                        _ => None,
                    };
                    if eq_str(key, "Total") {
                        set_pair(m, DhatMetricKind::TotalBytes, DhatMetricKind::TotalBlocks, bytes, blocks, Ghost(v))
                    } else if eq_str(key, "At t-gmax") {
                        set_pair(m, DhatMetricKind::AtTGmaxBytes, DhatMetricKind::AtTGmaxBlocks, bytes, blocks, Ghost(v))
                    } else if eq_str(key, "At t-end") {
                        set_pair(m, DhatMetricKind::AtTEndBytes, DhatMetricKind::AtTEndBlocks, bytes, blocks, Ghost(v))
                    } else if eq_str(key, "Reads") {
                        metrics_insert(m, DhatMetricKind::ReadsBytes, bytes);
                        LineOutcome::Continue
                    } else if eq_str(key, "Writes") {
                        metrics_insert(m, DhatMetricKind::WritesBytes, bytes);
                        LineOutcome::Continue
                    } else {
                        LineOutcome::Continue
                    }
                },
            }
        },
    }
}

/// A line in the metrics.
fn fields_line_exec(
    p: &LogPatterns,
    line: &str,
    state: &mut LogState,
    m: &mut Vec<(DhatMetricKind, u64)>,
    Ghost(v): Ghost<LogView>,
) -> (r: LineOutcome)
    requires
        kv_distinct(old(m)@),
        v.metrics == old(m)@,
        v.state == *old(state),
        running(v),
    ensures
        kv_distinct(final(m)@),
        fields_line(v, line@, p.sources()) == after(v, *final(state), final(m)@, v.details, r),
{
    match capture_group(&p.extract_fields, line, "key") {
        None => {
            *state = LogState::Footer;
            LineOutcome::Continue
        },
        Some(k) => {
            let value = capture_group(&p.extract_fields, line, "value");
            match (k, value) {
                (Some(key), Some(Some(value))) => {
                    let fixed = replace_all(&p.fixup_numbers, value.as_str(), "$1$2");
                    let kv = to_chars(key.as_str());
                    metric_line_exec(p, &kv, fixed.as_str(), m, Ghost(v))
                },
                _ => LineOutcome::Unreadable,
            }
        },
    }
}

/// A line of the details.
fn body_line_exec(
    p: &LogPatterns,
    line: &str,
    state: &mut LogState,
    m: &mut Vec<(DhatMetricKind, u64)>,
    details: &mut Vec<String>,
    Ghost(v): Ghost<LogView>,
) -> (r: LineOutcome)
    requires
        kv_distinct(old(m)@),
        v.metrics == old(m)@,
        v.state == *old(state),
        v.details == line_views(old(details)@),
        running(v),
    ensures
        kv_distinct(final(m)@),
        body_line(v, line@, p.sources()) == after(v, *final(state), final(m)@, line_views(final(details)@), r),
{
    let total = match capture_group(&p.extract_fields, line, "key") {
        Some(None) => {
            return LineOutcome::Unreadable;
        },
        Some(Some(key)) => {
            let kv = to_chars(key.as_str());
            is_total_key(&kv)
        },
        None => false,
    };
    if total {
        *state = LogState::Fields;
        return fields_line_exec(p, line, state, m, Ghost(LogView { state: LogState::Fields, ..v }));
    }
    let ghost before = details@;
    match capture_group(&p.strip_prefix, line, "rest") {
        None => {
            details.push(owned(line));
            assert(line_views(details@) =~= v.details.push(line@));
            LineOutcome::Continue
        },
        Some(Some(rest)) => {
            details.push(rest);
            assert(line_views(details@) =~= v.details.push(line_views(details@).last()));
            LineOutcome::Continue
        },
        Some(None) => LineOutcome::Unreadable,
    }
}

/// After the parser stopped, further lines change nothing.
proof fn lemma_fold_halted(v: LogView, ls: Seq<Seq<char>>, i: int, src: LogSources)
    requires
        0 <= i <= ls.len(),
        !running(log_fold(v, ls.take(i), src)),
    ensures
        log_fold(v, ls, src) == log_fold(v, ls.take(i), src),
    decreases ls.len() - i,
{
    if i < ls.len() {
        assert(ls.take(i + 1).drop_last() =~= ls.take(i));
        assert(ls.take(i + 1).last() == ls[i]);
        lemma_fold_halted(v, ls, i + 1, src);
    } else {
        assert(ls.take(i) =~= ls);
    }
}

/// The metrics and details of a DHAT log
#[derive(Debug)]
pub struct DhatLogfileParser {
    /// The directory the benchmarks run in
    pub root_dir: String,
    /// The patterns of a valgrind log
    pub patterns: LogPatterns,
}

impl DhatLogfileParser {
    /// Parse a single line of the log file.
    fn parse_line(
        &self,
        line: &str,
        state: &mut LogState,
        m: &mut Vec<(DhatMetricKind, u64)>,
        details: &mut Vec<String>,
        Ghost(v): Ghost<LogView>,
    ) -> (r: LineOutcome)
        requires
            kv_distinct(old(m)@),
            v.metrics == old(m)@,
            v.state == *old(state),
            v.details == line_views(old(details)@),
            running(v),
        ensures
            kv_distinct(final(m)@),
            log_step(v, line@, self.patterns.sources()) == after(
                v,
                *final(state),
                final(m)@,
                line_views(final(details)@),
                r,
            ),
    {
        let p = &self.patterns;
        match *state {
            LogState::HeaderSpace => {
                if is_match(&p.empty_line, line) {
                    LineOutcome::Continue
                } else {
                    *state = LogState::Body;
                    body_line_exec(p, line, state, m, details, Ghost(LogView { state: LogState::Body, ..v }))
                }
            },
            LogState::Body => body_line_exec(p, line, state, m, details, Ghost(v)),
            LogState::Fields => fields_line_exec(p, line, state, m, Ghost(v)),
            LogState::Footer => LineOutcome::Stop,
        }
    }

    /// The metrics and the details (without blank lines at their end) of the lines of a log
    /// after its header; `None` where a named group of a pattern that matched did not take part
    /// in the match.
    pub fn try_parse_lines(&self, lines: &Vec<String>) -> (r: Option<
        Result<(Vec<(DhatMetricKind, u64)>, Vec<String>), DhatLogError>,
    >)
        ensures
            ({
                let v = log_fold(log_start(), line_views(lines@), self.patterns.sources());
                &&& r is None <==> v.unreadable
                &&& r matches Some(Err(e)) ==> v.error == Some(e)
                &&& r matches Some(Ok(out)) ==> v.error is None && out.0@ == v.metrics && kv_distinct(out.0@)
                    && line_views(out.1@) == drop_blank_tail(v.details)
                &&& !v.unreadable && v.error is Some ==> r is Some && r->0 is Err
            }),
    {
        let ghost src = self.patterns.sources();
        let ghost ls = line_views(lines@);
        let mut state = LogState::HeaderSpace;
        let mut m: Vec<(DhatMetricKind, u64)> = Vec::new();
        let mut details: Vec<String> = Vec::new();
        let mut i: usize = 0;
        assert(ls.take(0) =~= Seq::<Seq<char>>::empty());
        assert(line_views(details@) =~= Seq::<Seq<char>>::empty());
        assert(log_fold(log_start(), ls.take(0), src) == after(log_start(), state, m@, line_views(details@), LineOutcome::Continue));
        let mut outcome = LineOutcome::Continue;
        while i < lines.len()
            invariant_except_break
                outcome == LineOutcome::Continue,
            invariant
                0 <= i <= lines.len(),
                ls == line_views(lines@),
                src == self.patterns.sources(),
                kv_distinct(m@),
                log_fold(log_start(), ls.take(i as int), src) == after(log_start(), state, m@, line_views(details@), outcome),
            ensures
                outcome != LineOutcome::Continue ==> !running(log_fold(log_start(), ls.take(i as int), src)),
                outcome == LineOutcome::Continue ==> i == lines.len(),
            decreases lines.len() - i,
        {
            let ghost v = after(log_start(), state, m@, line_views(details@), outcome);
            let o = self.parse_line(lines[i].as_str(), &mut state, &mut m, &mut details, Ghost(v));
            assert(ls.take(i + 1).drop_last() =~= ls.take(i as int));
            assert(ls.take(i + 1).last() == lines@[i as int]@);
            i += 1;
            outcome = o;
            if o != LineOutcome::Continue {
                break;
            }
        }
        proof {
            if outcome != LineOutcome::Continue {
                lemma_fold_halted(log_start(), ls, i as int, src);
            } else {
                assert(ls.take(i as int) =~= ls);
            }
        }
        match outcome {
            LineOutcome::Unreadable => return None,
            LineOutcome::Failed(e) => return Some(Err(e)),
            _ => {},
        }
        let ghost d0 = line_views(details@);
        loop
            invariant
                drop_blank_tail(line_views(details@)) == drop_blank_tail(d0),
            ensures
                line_views(details@) == drop_blank_tail(d0),
            decreases details.len(),
        {
            let n = details.len();
            if n == 0 {
                assert(drop_blank_tail(line_views(details@)) == line_views(details@));
                break;
            }
            let last = to_chars(details[n - 1].as_str());
            let t = trim_chars(&last);
            if t.len() == 0 {
                let ghost before = details@;
                details.pop();
                assert(line_views(details@) =~= line_views(before).drop_last());
            } else {
                assert(drop_blank_tail(line_views(details@)) == line_views(details@));
                break;
            }
        }
        Some(Ok((m, details)))
    }
}

} // verus!
