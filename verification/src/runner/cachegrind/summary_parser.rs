//! The parser of the `summary:` line of a cachegrind output file.
//!
//! The format of the `.out` file is described in the cachegrind manual; unlike the callgrind
//! output file it holds no pid, which the log file gives.
use vstd::prelude::*;

use crate::callgrind::line_views;
use crate::runner::callgrind::summary_parser::{counts_of, prefixed_counts, summary_start, SummaryView};
use crate::runner::costs::Costs;
use crate::text::{owned, strip_prefix_exec, to_chars};

verus! {

/// The parser of a cachegrind file after one more line: a `summary:` line sets the counts.
pub open spec fn summary_step(st: SummaryView, line: Seq<char>, proto: Seq<u64>) -> SummaryView {
    if st.malformed {
        st
    } else {
        prefixed_counts(st, line, "summary:"@, proto, false)
    }
}

/// The parser of a cachegrind file after the lines, one after the other.
pub open spec fn summary_fold(st: SummaryView, lines: Seq<Seq<char>>, proto: Seq<u64>) -> SummaryView
    decreases lines.len(),
{
    if lines.len() == 0 {
        st
    } else {
        summary_step(summary_fold(st, lines.drop_last(), proto), lines.last(), proto)
    }
}

/// Why no summary could be read
#[derive(Debug, Clone, Copy, PartialEq, Eq, Structural)]
pub enum CachegrindSummaryError {
    /// There is no `summary:` line
    NoSummary,
    /// A count of a summary line does not parse or the sum overflows
    InvalidCount,
}

impl CachegrindSummaryError {
    /// The message of this error
    pub fn message(&self) -> (r: String)
        ensures
            match self {
                CachegrindSummaryError::NoSummary => r@ == "No summary line found"@,
                CachegrindSummaryError::InvalidCount => r@ == "Invalid count in a summary line"@,
            },
    {
        match self {
            CachegrindSummaryError::NoSummary => owned("No summary line found"),
            CachegrindSummaryError::InvalidCount => owned("Invalid count in a summary line"),
        }
    }
}

/// Parse the `summary:` line of a cachegrind output file
#[derive(Debug)]
pub struct SummaryParser {
    /// The output file
    pub output_path: String,
}

impl SummaryParser {
    /// The costs of the last `summary:` line of the body lines `lines[start..]`, with the event
    /// kinds of `proto`.
    pub fn parse_lines(proto: &Costs, lines: &Vec<String>, start: usize) -> (r: Result<Costs, CachegrindSummaryError>)
        requires
            proto.wf(),
            start <= lines.len(),
        ensures
            ({
                let v = summary_fold(summary_start(), line_views(lines@).skip(start as int), proto.values());
                &&& v.malformed <==> r == Err::<Costs, CachegrindSummaryError>(CachegrindSummaryError::InvalidCount)
                &&& !v.malformed && v.costs is None <==> r == Err::<Costs, CachegrindSummaryError>(
                    CachegrindSummaryError::NoSummary,
                )
                &&& r matches Ok(c) ==> c.wf() && c.kinds() == proto.kinds() && v.costs == Some(c.values())
            }),
    {
        let ghost ls = line_views(lines@).skip(start as int);
        let mut found: Option<Costs> = None;
        let mut i: usize = start;
        assert(ls.take(0) =~= Seq::<Seq<char>>::empty());
        while i < lines.len()
            invariant
                start <= i <= lines.len(),
                ls == line_views(lines@).skip(start as int),
                proto.wf(),
                ({
                    let v = summary_fold(summary_start(), ls.take(i - start), proto.values());
                    &&& !v.malformed
                    &&& !v.done
                    &&& match found {
                        Some(c) => c.wf() && c.kinds() == proto.kinds() && v.costs == Some(c.values()),
                        None => v.costs is None,
                    }
                }),
            decreases lines.len() - i,
        {
            assert(ls.take(i + 1 - start).drop_last() =~= ls.take(i - start));
            assert(ls.take(i + 1 - start).last() == lines@[i as int]@);
            let line = to_chars(lines[i].as_str());
            match strip_prefix_exec(&line, "summary:") {
                Some(suffix) => match counts_of(proto, &suffix) {
                    Some(c) => {
                        found = Some(c);
                    },
                    None => {
                        proof {
                            lemma_summary_halted(ls, (i + 1 - start) as int, proto.values());
                        }
                        return Err(CachegrindSummaryError::InvalidCount);
                    },
                },
                None => {},
            }
            i += 1;
        }
        assert(ls.take(lines.len() - start) =~= ls);
        match found {
            Some(c) => Ok(c),
            None => Err(CachegrindSummaryError::NoSummary),
        }
    }
}

/// Once a line is malformed, further lines change nothing.
proof fn lemma_summary_halted(ls: Seq<Seq<char>>, k: int, proto: Seq<u64>)
    requires
        0 <= k <= ls.len(),
        summary_fold(summary_start(), ls.take(k), proto).malformed,
    ensures
        summary_fold(summary_start(), ls, proto) == summary_fold(summary_start(), ls.take(k), proto),
    decreases ls.len() - k,
{
    if k < ls.len() {
        assert(ls.take(k + 1).drop_last() =~= ls.take(k));
        lemma_summary_halted(ls, k + 1, proto);
    } else {
        assert(ls.take(k) =~= ls);
    }
}

} // verus!
