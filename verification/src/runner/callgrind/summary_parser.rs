//! The parser of the `totals:` line of a callgrind output file, or of the `summary:` line if
//! there is no `totals:` line.
//!
//! The summary would usually be the first choice, but there are bugs in the summary line if
//! callgrind client requests are used, which is why the totals come first and then the summary.
//! The summary line gives the cost of the whole run; it may be larger than the total over all
//! self costs, as the cost lines may not represent all the cost of the program run.
use vstd::prelude::*;

use crate::callgrind::{line_views, token_views};
use crate::runner::callgrind::hashmap_parser::tokens_addable_exec;
use crate::runner::costs::{add_tokens, tokens_addable, Costs};
use crate::text::{owned, strip_prefix, strip_prefix_exec, to_chars, words, words_exec};

verus! {

/// The state of a parser of summary lines: the counts of the last such line, whether the
/// parser is done, and whether a count of such a line does not parse or overflows.
pub ghost struct SummaryView {
    pub costs: Option<Seq<u64>>,
    pub done: bool,
    pub malformed: bool,
}

/// The counts of the prototype plus those of the words after `prefix`, where `line` starts
/// with it.
pub open spec fn prefixed_counts(st: SummaryView, line: Seq<char>, prefix: Seq<char>, proto: Seq<u64>, last: bool) -> SummaryView {
    match strip_prefix(line, prefix) {
        Some(suffix) => if tokens_addable(proto, words(suffix)) {
            SummaryView { costs: Some(add_tokens(proto, words(suffix))), done: last, ..st }
        } else {
            SummaryView { malformed: true, ..st }
        },
        None => st,
    }
}

/// The parser of a callgrind file after one more line: a `summary:` line sets the counts; a
/// `totals:` line sets them and ends the parse.
pub open spec fn totals_step(st: SummaryView, line: Seq<char>, proto: Seq<u64>) -> SummaryView {
    if st.done || st.malformed {
        st
    } else {
        let st1 = prefixed_counts(st, line, "summary:"@, proto, false);
        if st1.malformed {
            st1
        } else {
            prefixed_counts(st1, line, "totals:"@, proto, true)
        }
    }
}

/// The parser of a callgrind file after the lines, one after the other.
pub open spec fn totals_fold(st: SummaryView, lines: Seq<Seq<char>>, proto: Seq<u64>) -> SummaryView
    decreases lines.len(),
{
    if lines.len() == 0 {
        st
    } else {
        totals_step(totals_fold(st, lines.drop_last(), proto), lines.last(), proto)
    }
}

/// The parser before the first line.
pub open spec fn summary_start() -> SummaryView {
    SummaryView { costs: None, done: false, malformed: false }
}

/// Why no summary could be read
#[derive(Debug, Clone, Copy, PartialEq, Eq, Structural)]
pub enum SummaryError {
    /// There is no `summary:` or `totals:` line
    NoSummary,
    /// A count of a summary line does not parse or the sum overflows
    InvalidCount,
}

impl SummaryError {
    /// The message of this error
    pub fn message(&self) -> (r: String)
        ensures
            match self {
                SummaryError::NoSummary => r@ == "No summary or totals line found"@,
                SummaryError::InvalidCount => r@ == "Invalid count in a summary line"@,
            },
    {
        match self {
            SummaryError::NoSummary => owned("No summary or totals line found"),
            SummaryError::InvalidCount => owned("Invalid count in a summary line"),
        }
    }
}

/// The counts of the prototype plus those of the words of `suffix`; `None` where one does not
/// parse or a sum overflows.
pub(crate) fn counts_of(proto: &Costs, suffix: &Vec<char>) -> (r: Option<Costs>)
    requires
        proto.wf(),
    ensures
        r is None <==> !tokens_addable(proto.values(), words(suffix@)),
        r matches Some(c) ==> c.wf() && c.kinds() == proto.kinds() && c.values() == add_tokens(
            proto.values(),
            words(suffix@),
        ),
{
    let toks = words_exec(suffix);
    if !tokens_addable_exec(proto, &toks) {
        return None;
    }
    let mut c = proto.duplicate();
    c.add_iter_str(&toks);
    Some(c)
}

/// Parse the `totals:` line of a callgrind output file, or the `summary:` line where there is
/// no `totals:` line
#[derive(Debug)]
pub struct SummaryParser {
    /// The output file
    pub output_path: String,
}

impl SummaryParser {
    /// Create a new parser of the output file at `output_path`
    pub fn new(output_path: &str) -> (r: SummaryParser)
        ensures
            r.output_path@ == output_path@,
    {
        SummaryParser { output_path: owned(output_path) }
    }

    /// The costs of the first `totals:` line of the body lines `lines[start..]`, or of the last
    /// `summary:` line where there is none, with the event kinds of `proto`.
    pub fn parse_lines(proto: &Costs, lines: &Vec<String>, start: usize) -> (r: Result<Costs, SummaryError>)
        requires
            proto.wf(),
            start <= lines.len(),
        ensures
            ({
                let v = totals_fold(summary_start(), line_views(lines@).skip(start as int), proto.values());
                &&& v.malformed <==> r == Err::<Costs, SummaryError>(SummaryError::InvalidCount)
                &&& !v.malformed && v.costs is None <==> r == Err::<Costs, SummaryError>(SummaryError::NoSummary)
                &&& r matches Ok(c) ==> c.wf() && c.kinds() == proto.kinds() && v.costs == Some(c.values())
            }),
    {
        let ghost ls = line_views(lines@).skip(start as int);
        let mut found: Option<Costs> = None;
        let mut i: usize = start;
        assert(ls.take(0) =~= Seq::<Seq<char>>::empty());
        while i < lines.len()
            invariant
                start <= i <= lines.len(),
                ls == line_views(lines@).skip(start as int),
                proto.wf(),
                ({
                    let v = totals_fold(summary_start(), ls.take(i - start), proto.values());
                    &&& !v.done && !v.malformed
                    &&& match found {
                        Some(c) => c.wf() && c.kinds() == proto.kinds() && v.costs == Some(c.values()),
                        None => v.costs is None,
                    }
                }),
            decreases lines.len() - i,
        {
            assert(ls.take(i + 1 - start).drop_last() =~= ls.take(i - start));
            assert(ls.take(i + 1 - start).last() == lines@[i as int]@);
            let line = to_chars(lines[i].as_str());
            match strip_prefix_exec(&line, "summary:") {
                Some(suffix) => match counts_of(proto, &suffix) {
                    Some(c) => {
                        found = Some(c);
                    },
                    None => {
                        proof {
                            lemma_totals_halted(ls, (i + 1 - start) as int, proto.values());
                        }
                        return Err(SummaryError::InvalidCount);
                    },
                },
                None => {},
            }
            match strip_prefix_exec(&line, "totals:") {
                Some(suffix) => match counts_of(proto, &suffix) {
                    Some(c) => {
                        proof {
                            lemma_totals_halted(ls, (i + 1 - start) as int, proto.values());
                        }
                        return Ok(c);
                    },
                    None => {
                        proof {
                            lemma_totals_halted(ls, (i + 1 - start) as int, proto.values());
                        }
                        return Err(SummaryError::InvalidCount);
                    },
                },
                None => {},
            }
            i += 1;
        }
        assert(ls.take(lines.len() - start) =~= ls);
        match found {
            Some(c) => Ok(c),
            None => Err(SummaryError::NoSummary),
        }
    }
}

/// Once the parser is done or a line is malformed, further lines change nothing.
proof fn lemma_totals_halted(ls: Seq<Seq<char>>, k: int, proto: Seq<u64>)
    requires
        0 <= k <= ls.len(),
        totals_fold(summary_start(), ls.take(k), proto).done || totals_fold(summary_start(), ls.take(k), proto).malformed,
    ensures
        totals_fold(summary_start(), ls, proto) == totals_fold(summary_start(), ls.take(k), proto),
    decreases ls.len() - k,
{
    if k < ls.len() {
        assert(ls.take(k + 1).drop_last() =~= ls.take(k));
        lemma_totals_halted(ls, k + 1, proto);
    } else {
        assert(ls.take(k) =~= ls);
    }
}

} // verus!
