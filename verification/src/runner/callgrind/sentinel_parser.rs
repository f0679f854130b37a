//! The parser of a callgrind output file that collects the costs of the function a [`Sentinel`]
//! names.
//!
//! It is meant for sentinels that occur only once per output file and are not recursive.
use vstd::prelude::*;

use crate::callgrind::{line_views, token_views};
use crate::pattern::regex_is_match;
use crate::runner::callgrind::hashmap_parser::{drop_front, tokens_addable_exec};
use crate::runner::callgrind::parser::{CallgrindProperties, Sentinel};
use crate::runner::costs::{add_tokens, tokens_addable, Costs};
use crate::text::{is_digit, is_digit_exec, strip_prefix, strip_prefix_exec, to_chars, trim, trim_chars, words, words_exec};

verus! {

/// The state of the parser after some lines: the counts so far, whether the lines belong to
/// the sentinel's record, and whether a cost line could not be added.
pub ghost struct SentinelView {
    pub costs: Seq<u64>,
    pub recording: bool,
    pub malformed: bool,
}

/// The parser after one more line. Comments are skipped; a blank line ends a record; outside a
/// record, `fn=` with a name the sentinel matches starts one; inside, a line that starts with a
/// digit is a cost line whose counts (after the positions) are added.
pub open spec fn sentinel_step(st: SentinelView, line: Seq<char>, sentinel: Seq<char>, npos: int) -> SentinelView {
    if st.malformed || (line.len() > 0 && line[0] == '#') {
        st
    } else {
        let t = trim(line);
        if t.len() == 0 {
            SentinelView { recording: false, ..st }
        } else if !st.recording {
            match strip_prefix(t, "fn="@) {
                Some(func) => if regex_is_match(sentinel, func) {
                    SentinelView { recording: true, ..st }
                } else {
                    st
                },
                None => st,
            }
        } else if is_digit(t[0]) {
            let toks = drop_front(words(t), npos);
            if tokens_addable(st.costs, toks) {
                SentinelView { costs: add_tokens(st.costs, toks), ..st }
            } else {
                SentinelView { malformed: true, ..st }
            }
        } else {
            st
        }
    }
}

/// The parser after the lines, one after the other.
pub open spec fn sentinel_fold(st: SentinelView, lines: Seq<Seq<char>>, sentinel: Seq<char>, npos: int) -> SentinelView
    decreases lines.len(),
{
    if lines.len() == 0 {
        st
    } else {
        sentinel_step(sentinel_fold(st, lines.drop_last(), sentinel, npos), lines.last(), sentinel, npos)
    }
}

/// The words of a line without the first `n`.
pub(crate) fn drop_front_tokens(all: &Vec<Vec<char>>, n: usize) -> (r: Vec<Vec<char>>)
    ensures
        token_views(r@) == drop_front(token_views(all@), n as int),
{
    let start = if n < all.len() {
        n
    } else {
        all.len()
    };
    let mut toks: Vec<Vec<char>> = Vec::new();
    let mut i: usize = start;
    assert(token_views(toks@) =~= token_views(all@).subrange(start as int, start as int));
    while i < all.len()
        invariant
            start <= i <= all.len(),
            token_views(toks@) == token_views(all@).subrange(start as int, i as int),
        decreases all.len() - i,
    {
        let ghost before = toks@;
        let x = crate::text::sub_chars(&all[i], 0, all[i].len());
        assert(x@ =~= all@[i as int]@);
        toks.push(x);
        assert(token_views(toks@) =~= token_views(before).push(all@[i as int]@));
        assert(token_views(all@).subrange(start as int, i + 1) =~= token_views(all@).subrange(
            start as int,
            i as int,
        ).push(all@[i as int]@));
        i += 1;
    }
    assert(token_views(toks@) =~= drop_front(token_views(all@), n as int));
    toks
}

/// A parser for callgrind output files which collects all costs for a [`Sentinel`]
#[derive(Debug)]
pub struct SentinelParser {
    sentinel: Sentinel,
}

impl SentinelParser {
    /// The pattern of the sentinel.
    pub closed spec fn sentinel_source(&self) -> Seq<char> {
        self.sentinel.source()
    }

    /// Create a new parser for this sentinel
    pub fn new(sentinel: &Sentinel) -> (r: SentinelParser)
        ensures
            r.sentinel_source() == sentinel.source(),
    {
        SentinelParser { sentinel: sentinel.duplicate() }
    }

    /// The state of the parser after the lines `lines[start..]` of a file with the header
    /// `props`.
    pub open spec fn result(&self, props: CallgrindProperties, lines: Seq<String>, start: int) -> SentinelView {
        sentinel_fold(
            SentinelView { costs: props.costs_prototype.values(), recording: false, malformed: false },
            line_views(lines).skip(start),
            self.sentinel_source(),
            props.positions_prototype@.len() as int,
        )
    }

    /// The costs of the sentinel's function in the body lines `lines[start..]` of a file with
    /// the header `props`; `None` where a count does not parse or a sum overflows.
    pub fn try_parse_lines(&self, props: &CallgrindProperties, lines: &Vec<String>, start: usize) -> (r: Option<Costs>)
        requires
            props.costs_prototype.wf(),
            start <= lines.len(),
        ensures
            r is None <==> self.result(*props, lines@, start as int).malformed,
            r matches Some(c) ==> c.wf() && c.kinds() == props.costs_prototype.kinds() && c.values() == self.result(
                *props,
                lines@,
                start as int,
            ).costs,
    {
        let ghost ls = line_views(lines@).skip(start as int);
        let ghost sentinel = self.sentinel_source();
        let npos = props.positions_prototype.len();
        let ghost init = SentinelView { costs: props.costs_prototype.values(), recording: false, malformed: false };
        let mut costs = props.costs_prototype.duplicate();
        let mut recording = false;
        let mut i: usize = start;
        assert(ls.take(0) =~= Seq::<Seq<char>>::empty());
        while i < lines.len()
            invariant
                start <= i <= lines.len(),
                ls == line_views(lines@).skip(start as int),
                sentinel == self.sentinel_source(),
                npos == props.positions_prototype@.len(),
                init == (SentinelView { costs: props.costs_prototype.values(), recording: false, malformed: false }),
                costs.wf(),
                costs.kinds() == props.costs_prototype.kinds(),
                sentinel_fold(init, ls.take(i - start), sentinel, npos as int) == (SentinelView {
                    costs: costs.values(),
                    recording,
                    malformed: false,
                }),
            decreases lines.len() - i,
        {
            assert(ls.take(i + 1 - start).drop_last() =~= ls.take(i - start));
            assert(ls.take(i + 1 - start).last() == lines@[i as int]@);
            let line = to_chars(lines[i].as_str());
            if line.len() > 0 && line[0] == '#' {
                i += 1;
                continue;
            }
            let t = trim_chars(&line);
            if t.len() == 0 {
                recording = false;
            } else if !recording {
                match strip_prefix_exec(&t, "fn=") {
                    Some(func) => {
                        let name = crate::text::from_chars(&func);
                        if self.sentinel.matches(name.as_str()) {
                            recording = true;
                        }
                    },
                    None => {},
                }
            } else if is_digit_exec(t[0]) {
                let all = words_exec(&t);
                let toks = drop_front_tokens(&all, npos);
                if !tokens_addable_exec(&costs, &toks) {
                    proof {
                        lemma_sentinel_stays_malformed(
                            init,
                            ls,
                            (i + 1 - start) as int,
                            sentinel,
                            npos as int,
                        );
                    }
                    return None;
                }
                costs.add_iter_str(&toks);
            }
            i += 1;
        }
        assert(ls.take(lines.len() - start) =~= ls);
        Some(costs)
    }
}

/// Once a cost line could not be added, the parser stays so.
proof fn lemma_sentinel_stays_malformed(
    init: SentinelView,
    ls: Seq<Seq<char>>,
    k: int,
    sentinel: Seq<char>,
    npos: int,
)
    requires
        0 <= k <= ls.len(),
        sentinel_fold(init, ls.take(k), sentinel, npos).malformed,
    ensures
        sentinel_fold(init, ls, sentinel, npos).malformed,
    decreases ls.len() - k,
{
    if k < ls.len() {
        assert(ls.take(k + 1).drop_last() =~= ls.take(k));
        lemma_sentinel_stays_malformed(init, ls, k + 1, sentinel, npos);
    } else {
        assert(ls.take(k) =~= ls);
    }
}

} // verus!
