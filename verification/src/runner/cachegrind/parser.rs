//! The header of a cachegrind output file: the descriptions, the command and the events.
//!
//! The format is described in the cachegrind manual:
//!
//! ```text
//! file         ::= desc_line* cmd_line events_line data_line+ summary_line
//! desc_line    ::= "desc:" ws? non_nl_string
//! cmd_line     ::= "cmd:" ws? cmd
//! events_line  ::= "events:" ws? (event ws)+
//! ```
use vstd::prelude::*;

use crate::api::EventKind;
use crate::runner::callgrind::parser::{event_pairs, strings_view};
use crate::runner::costs::{insert_all, Costs};
use crate::text::{
    append_str, eq_str, from_chars, owned, split_once, split_once_exec, starts_with, to_chars,
    trim, trim_chars, words, words_exec,
};

verus! {

/// The state of the header parser after some lines.
pub ghost struct CgHeaderState {
    /// The values of the `desc:` lines, but for those that describe options
    pub desc: Seq<Seq<char>>,
    /// The value of the last `cmd:` line
    pub cmd: Option<Seq<char>>,
    /// The names of the `events:` line, which ends the header
    pub events: Option<Seq<Seq<char>>>,
    /// The first name of the `events:` line that names no event, which ends the header with
    /// an error
    pub unknown: Option<Seq<char>>,
}

impl CgHeaderState {
    /// The state before the first line
    pub open spec fn initial() -> CgHeaderState {
        CgHeaderState { desc: Seq::empty(), cmd: None, events: None, unknown: None }
    }

    /// The header ended: by its `events:` line.
    pub open spec fn done(self) -> bool {
        self.events is Some || self.unknown is Some
    }
}

/// The index of the first name that names no event kind, if there is one.
pub open spec fn first_unknown(names: Seq<Seq<char>>) -> Option<int> {
    if exists|i: int| 0 <= i < names.len() && EventKind::spec_from_name(#[trigger] names[i]) is None {
        Some(
            choose|i: int|
                0 <= i < names.len() && EventKind::spec_from_name(#[trigger] names[i]) is None
                    && forall|j: int| 0 <= j < i ==> EventKind::spec_from_name(names[j]) is Some,
        )
    } else {
        None
    }
}

/// The state after the `key: value` line (key and value trimmed).
#[verifier::opaque]
pub open spec fn cg_header_entry(st: CgHeaderState, k: Seq<char>, v: Seq<char>) -> CgHeaderState {
    if k == "desc"@ && !"Option:"@.is_prefix_of(v) {
        CgHeaderState { desc: st.desc.push(v), ..st }
    } else if k == "cmd"@ {
        CgHeaderState { cmd: Some(v), ..st }
    } else if k == "events"@ {
        match first_unknown(words(v)) {
            Some(i) => CgHeaderState { unknown: Some(words(v)[i]), ..st },
            None => CgHeaderState { events: Some(words(v)), ..st },
        }
    } else {
        st
    }
}

/// The state after a line: blank lines, comments and lines without a `:` are skipped; nothing
/// changes once the header ended.
#[verifier::opaque]
pub open spec fn cg_header_step(st: CgHeaderState, line: Seq<char>) -> CgHeaderState {
    let t = trim(line);
    if st.done() || t.len() == 0 || t[0] == '#' {
        st
    } else {
        match split_once(t, ':') {
            Some((k, v)) => cg_header_entry(st, trim(k), trim(v)),
            None => st,
        }
    }
}

/// The state after the lines, one after the other.
pub open spec fn cg_header_fold(st: CgHeaderState, lines: Seq<Seq<char>>) -> CgHeaderState
    decreases lines.len(),
{
    if lines.len() == 0 {
        st
    } else {
        cg_header_step(cg_header_fold(st, lines.drop_last()), lines.last())
    }
}

/// The events of a state are all known: a step keeps them so.
proof fn lemma_step_events_known(st: CgHeaderState, line: Seq<char>)
    requires
        st.events matches Some(e) ==> first_unknown(e) is None,
    ensures
        cg_header_step(st, line).events matches Some(e) ==> first_unknown(e) is None,
{
    reveal(cg_header_step);
    reveal(cg_header_entry);
}

/// The error of a cachegrind header
#[derive(Debug, Clone, PartialEq, Eq)]
pub enum CachegrindHeaderError {
    /// A name of the `events:` line names no event
    UnknownEvent(String),
    /// The header has no `events:` line
    MissingEvents,
    /// The header has no `cmd:` line
    MissingCmd,
}

impl CachegrindHeaderError {
    /// The message of this error
    pub fn message(&self) -> (r: String)
        ensures
            match self {
                CachegrindHeaderError::UnknownEvent(n) => r@ == "Unknown event type: "@ + n@,
                CachegrindHeaderError::MissingEvents => r@ == "Header field 'events' must be present"@,
                CachegrindHeaderError::MissingCmd => r@ == "Header field 'cmd' must be present"@,
            },
    {
        match self {
            CachegrindHeaderError::UnknownEvent(n) => {
                let mut c = to_chars("Unknown event type: ");
                append_str(&mut c, n.as_str());
                from_chars(&c)
            },
            CachegrindHeaderError::MissingEvents => owned("Header field 'events' must be present"),
            CachegrindHeaderError::MissingCmd => owned("Header field 'cmd' must be present"),
        }
    }
}

/// The properties and header data of a cachegrind output file
#[derive(Debug)]
pub struct CachegrindProperties {
    /// The executed command with its arguments
    pub cmd: String,
    /// The `desc:` fields
    pub desc: Vec<String>,
    /// The event kinds of the `events:` line, all with count zero
    pub metrics_prototype: Costs,
}

/// The result of the header parser for the final state `st`: the first unknown event, a
/// missing events line, a missing command, or the properties.
pub open spec fn cg_header_result(r: Result<CachegrindProperties, CachegrindHeaderError>, st: CgHeaderState) -> bool {
    match st.unknown {
        Some(n) => r matches Err(CachegrindHeaderError::UnknownEvent(e)) && e@ == n,
        None => match st.events {
            None => r == Err::<CachegrindProperties, CachegrindHeaderError>(CachegrindHeaderError::MissingEvents),
            Some(names) => match st.cmd {
                None => r == Err::<CachegrindProperties, CachegrindHeaderError>(CachegrindHeaderError::MissingCmd),
                Some(c) => r matches Ok(p) && {
                    &&& p.cmd@ == c
                    &&& strings_view(p.desc@) == st.desc
                    &&& p.metrics_prototype.wf()
                    &&& p.metrics_prototype@ == insert_all(Seq::empty(), event_pairs(names))
                },
            },
        },
    }
}

/// The header fields collected so far
struct CgHeaderFields {
    desc: Vec<String>,
    cmd: Option<String>,
    events: Option<Vec<Vec<char>>>,
    unknown: Option<Vec<char>>,
}

impl CgHeaderFields {
    spec fn model(&self) -> CgHeaderState {
        CgHeaderState {
            desc: strings_view(self.desc@),
            cmd: match self.cmd {
                Some(c) => Some(c@),
                None => None,
            },
            events: match self.events {
                Some(p) => Some(p@.map_values(|x: Vec<char>| x@)),
                None => None,
            },
            unknown: match self.unknown {
                Some(u) => Some(u@),
                None => None,
            },
        }
    }

    fn done(&self) -> (r: bool)
        ensures
            r == self.model().done(),
    {
        self.events.is_some() || self.unknown.is_some()
    }

    /// Apply the `key: value` entry of a header line
    fn apply_entry(&mut self, k: &Vec<char>, v: &Vec<char>)
        ensures
            final(self).model() == cg_header_entry(old(self).model(), k@, v@),
    {
        proof {
            reveal(cg_header_entry);
        }
        if eq_str(k, "desc") && !starts_with(v, "Option:") {
            let ghost before = self.desc@;
            self.desc.push(from_chars(v));
            assert(strings_view(self.desc@) =~= strings_view(before).push(v@));
        } else if eq_str(k, "cmd") {
            self.cmd = Some(from_chars(v));
        } else if eq_str(k, "events") {
            let names = words_exec(v);
            let ghost ns = names@.map_values(|x: Vec<char>| x@);
            assert(ns == words(v@));
            match find_unknown(&names) {
                Some(i) => {
                    let u = copy_chars(&names[i]);
                    assert(u@ == ns[i as int]);
                    assert(first_unknown(words(v@)) == Some(i as int));
                    self.unknown = Some(u);
                    assert(self.model().unknown == Some(words(v@)[i as int]));
                },
                None => {
                    assert(first_unknown(words(v@)) is None);
                    self.events = Some(names);
                    assert(self.model().events == Some(words(v@)));
                },
            }
        }
    }

    /// Apply a header line
    fn apply_line(&mut self, line: &String)
        ensures
            final(self).model() == cg_header_step(old(self).model(), line@),
    {
        proof {
            reveal(cg_header_step);
        }
        if self.done() {
            return;
        }
        let t = trim_chars(&to_chars(line.as_str()));
        if t.len() == 0 || t[0] == '#' {
            return;
        }
        match split_once_exec(&t, ':') {
            Some((k, v)) => {
                let k = trim_chars(&k);
                let v = trim_chars(&v);
                self.apply_entry(&k, &v);
            },
            None => {},
        }
    }
}

/// A copy of the characters
fn copy_chars(v: &Vec<char>) -> (r: Vec<char>)
    ensures
        r@ == v@,
{
    to_chars(from_chars(v).as_str())
}

/// The index of the first name that names no event kind, if there is one
fn find_unknown(names: &Vec<Vec<char>>) -> (r: Option<usize>)
    ensures
        r matches Some(i) ==> i < names.len() && first_unknown(names@.map_values(|x: Vec<char>| x@))
            == Some(i as int),
        r is None ==> first_unknown(names@.map_values(|x: Vec<char>| x@)) is None,
{
    let ghost ns = names@.map_values(|x: Vec<char>| x@);
    let mut i: usize = 0;
    while i < names.len()
        invariant
            0 <= i <= names.len(),
            ns == names@.map_values(|x: Vec<char>| x@),
            forall|j: int| 0 <= j < i ==> EventKind::spec_from_name(#[trigger] ns[j]) is Some,
        decreases names.len() - i,
    {
        if EventKind::try_from_name(&names[i]).is_none() {
            proof {
                assert(EventKind::spec_from_name(ns[i as int]) is None);
                let c = choose|c: int|
                    0 <= c < ns.len() && EventKind::spec_from_name(#[trigger] ns[c]) is None
                        && forall|j: int| 0 <= j < c ==> EventKind::spec_from_name(ns[j]) is Some;
                if c < i {
                    assert(EventKind::spec_from_name(ns[c]) is Some);
                }
                if i < c {
                    assert(EventKind::spec_from_name(ns[i as int]) is Some);
                }
                assert(c == i);
            }
            return Some(i);
        }
        i += 1;
    }
    None
}

/// Parse the header of a cachegrind output file from `lines[*pos..]`: the `key: value` lines
/// up to the `events:` line, which ends the header; blank lines, comments (`#`) and lines
/// without a `:` are skipped. On return `*pos` is the index of the first line after the
/// header.
pub fn parse_header(lines: &Vec<String>, pos: &mut usize) -> (r: Result<
    CachegrindProperties,
    CachegrindHeaderError,
>)
    requires
        *old(pos) <= lines.len(),
    ensures
        ({
            let ls = strings_view(lines@);
            let st = cg_header_fold(CgHeaderState::initial(), ls.subrange(*old(pos) as int, *final(pos) as int));
            &&& *old(pos) <= *final(pos) <= lines.len()
            &&& *final(pos) < lines.len() ==> st.done()
            &&& st.done() ==> cg_header_fold(CgHeaderState::initial(), ls.subrange(*old(pos) as int, *final(pos) - 1)).done() == false
            &&& cg_header_result(r, st)
        }),
{
    let ghost ls = strings_view(lines@);
    let ghost start = *pos as int;
    let mut i: usize = *pos;
    let mut fields = CgHeaderFields { desc: Vec::new(), cmd: None, events: None, unknown: None };
    assert(strings_view(fields.desc@) =~= Seq::<Seq<char>>::empty());
    assert(fields.model() == CgHeaderState::initial());
    assert(ls.subrange(start, start) =~= Seq::<Seq<char>>::empty());
    while i < lines.len() && !fields.done()
        invariant
            0 <= start <= i <= lines.len(),
            ls == strings_view(lines@),
            fields.model().events matches Some(e) ==> first_unknown(e) is None,
            ls.len() == lines.len(),
            fields.model() == cg_header_fold(CgHeaderState::initial(), ls.subrange(start, i as int)),
            i > start ==> !cg_header_fold(CgHeaderState::initial(), ls.subrange(start, i - 1)).done(),
        decreases lines.len() - i,
    {
        proof {
            lemma_step_events_known(fields.model(), lines@[i as int]@);
        }
        fields.apply_line(&lines[i]);
        assert(ls.subrange(start, i + 1).drop_last() =~= ls.subrange(start, i as int));
        assert(ls.subrange(start, i + 1).last() == lines@[i as int]@);
        i += 1;
    }
    *pos = i;
    match fields.unknown {
        Some(n) => {
            return Err(CachegrindHeaderError::UnknownEvent(from_chars(&n)));
        },
        None => {},
    }
    match fields.events {
        None => Err(CachegrindHeaderError::MissingEvents),
        Some(names) => {
            let ghost ns = names@.map_values(|x: Vec<char>| x@);
            assert(first_unknown(ns) is None);
            assert forall|j: int| 0 <= j < names.len() implies EventKind::spec_from_name(
                #[trigger] names@[j]@,
            ) is Some by {
                assert(ns[j] == names@[j]@);
                if EventKind::spec_from_name(ns[j]) is None {
                    assert(0 <= j < ns.len() && EventKind::spec_from_name(ns[j]) is None);
                }
            }
            match fields.cmd {
                None => Err(CachegrindHeaderError::MissingCmd),
                Some(cmd) => {
                    let metrics_prototype = Costs::from_event_names(&names);
                    assert(names@.map_values(
                        |n: Vec<char>| (EventKind::spec_from_name(n@).unwrap(), 0u64),
                    ) =~= event_pairs(ns));
                    Ok(CachegrindProperties { cmd, desc: fields.desc, metrics_prototype })
                },
            }
        },
    }
}

} // verus!
