//! The header of a callgrind output file and the sentinel that marks a function of interest.
use vstd::prelude::*;

use crate::api::EventKind;
use crate::pattern::{
    clone_pattern, compile, escape, escape_spec, is_match, regex_is_match, regex_replace_all, regex_valid,
    replace_all, Pattern,
};
use crate::runner::callgrind::model::{positions_from_names, PositionType, Positions};
use crate::runner::costs::{insert_all, Costs};
use crate::text::{
    append_str, eq_str, from_chars, owned, parse_i32, parse_i32_exec, parse_u64, parse_u64_exec,
    parse_usize, parse_usize_exec, split_once, split_once_exec, starts_with, to_chars, trim,
    trim_chars, words, words_exec,
};

verus! {

/// The event kinds named by `names`, each with the count zero.
pub open spec fn event_pairs(names: Seq<Seq<char>>) -> Seq<(EventKind, u64)> {
    names.map_values(|n: Seq<char>| (EventKind::spec_from_name(n).unwrap(), 0u64))
}

/// The state of the header parser after some lines.
pub ghost struct HeaderState {
    pub pid: Option<i32>,
    pub thread: Option<usize>,
    pub part: Option<u64>,
    pub desc: Seq<Seq<char>>,
    pub cmd: Option<Seq<char>>,
    pub creator: Option<Seq<char>>,
    /// The entries of the last `positions:` line
    pub positions: Option<Seq<Seq<char>>>,
    /// The entries of the `events:` line, which ends the header
    pub events: Option<Seq<Seq<char>>>,
    /// The value of a `version:` line other than `1`, which ends the header with an error
    pub version: Option<Seq<char>>,
    /// A line the parser cannot read: a number that does not parse or an unknown name
    pub malformed: bool,
}

impl HeaderState {
    /// The state before the first header line
    pub open spec fn initial() -> HeaderState {
        HeaderState {
            pid: None,
            thread: None,
            part: None,
            desc: Seq::empty(),
            cmd: None,
            creator: None,
            positions: None,
            events: None,
            version: None,
            malformed: false,
        }
    }

    /// The header ended: by the events line, a version mismatch or a malformed line.
    pub open spec fn done(self) -> bool {
        self.events is Some || self.version is Some || self.malformed
    }
}

/// Every entry names a position type.
pub open spec fn all_position_names(names: Seq<Seq<char>>) -> bool {
    forall|i: int| 0 <= i < names.len() ==> PositionType::spec_from_name(#[trigger] names[i]) is Some
}

/// Every entry names an event kind.
pub open spec fn all_event_names(names: Seq<Seq<char>>) -> bool {
    forall|i: int| 0 <= i < names.len() ==> EventKind::spec_from_name(#[trigger] names[i]) is Some
}

/// The state after the `key: value` line (key and value trimmed).
#[verifier::opaque]
pub open spec fn header_entry(st: HeaderState, k: Seq<char>, v: Seq<char>) -> HeaderState {
    if k == "version"@ && v != "1"@ {
        HeaderState { version: Some(v), ..st }
    } else if k == "pid"@ {
        match parse_i32(v) {
            Some(x) => HeaderState { pid: Some(x), ..st },
            None => HeaderState { malformed: true, ..st },
        }
    } else if k == "thread"@ {
        match parse_usize(v) {
            Some(x) => HeaderState { thread: Some(x), ..st },
            None => HeaderState { malformed: true, ..st },
        }
    } else if k == "part"@ {
        match parse_u64(v) {
            Some(x) => HeaderState { part: Some(x), ..st },
            None => HeaderState { malformed: true, ..st },
        }
    } else if k == "desc"@ && !"Option:"@.is_prefix_of(v) {
        HeaderState { desc: st.desc.push(v), ..st }
    } else if k == "cmd"@ {
        HeaderState { cmd: Some(v), ..st }
    } else if k == "creator"@ {
        HeaderState { creator: Some(v), ..st }
    } else if k == "positions"@ {
        if all_position_names(words(v)) {
            HeaderState { positions: Some(words(v)), ..st }
        } else {
            HeaderState { malformed: true, ..st }
        }
    } else if k == "events"@ {
        if all_event_names(words(v)) {
            HeaderState { events: Some(words(v)), ..st }
        } else {
            HeaderState { malformed: true, ..st }
        }
    } else {
        st
    }
}

/// The state after a header line: blank lines, comments and lines without a `:` are skipped;
/// nothing changes once the header ended.
#[verifier::opaque]
pub open spec fn header_step(st: HeaderState, line: Seq<char>) -> HeaderState {
    let t = trim(line);
    if st.done() || t.len() == 0 || t[0] == '#' {
        st
    } else {
        match split_once(t, ':') {
            Some((k, v)) => header_entry(st, trim(k), trim(v)),
            None => st,
        }
    }
}

/// The state after the header lines `lines`, one after the other.
pub open spec fn header_fold(st: HeaderState, lines: Seq<Seq<char>>) -> HeaderState
    decreases lines.len(),
{
    if lines.len() == 0 {
        st
    } else {
        header_step(header_fold(st, lines.drop_last()), lines.last())
    }
}

/// Once the header ended, further lines change nothing.
pub proof fn lemma_header_fold_done(st: HeaderState, a: Seq<Seq<char>>, b: Seq<Seq<char>>)
    requires
        header_fold(st, a).done(),
    ensures
        header_fold(st, a + b) == header_fold(st, a),
    decreases b.len(),
{
    reveal(header_step);
    if b.len() == 0 {
        assert(a + b =~= a);
    } else {
        lemma_header_fold_done(st, a, b.drop_last());
        assert((a + b).drop_last() =~= a + b.drop_last());
        assert((a + b).last() == b.last());
    }
}

/// The index of the first line at or after `start` that is not blank.
pub open spec fn first_content(lines: Seq<Seq<char>>, start: int) -> Option<int> {
    if exists|i: int| start <= i < lines.len() && #[trigger] trim(lines[i]).len() > 0 {
        Some(
            choose|i: int|
                start <= i < lines.len() && #[trigger] trim(lines[i]).len() > 0 && forall|j: int|
                    start <= j < i ==> trim(lines[j]).len() == 0,
        )
    } else {
        None
    }
}

/// The state of the header parser at the end of the file: the header starts after the first
/// line that is not blank, which names the file format.
pub open spec fn header_state(lines: Seq<Seq<char>>, start: int) -> HeaderState {
    match first_content(lines, start) {
        Some(f) => header_fold(HeaderState::initial(), lines.subrange(f + 1, lines.len() as int)),
        None => HeaderState::initial(),
    }
}

/// The header can be read: every number parses and every name is known.
pub open spec fn header_readable(lines: Seq<Seq<char>>, start: int) -> bool {
    !header_state(lines, start).malformed
}

/// The error of a callgrind header
#[derive(Debug, Clone, PartialEq, Eq)]
pub enum HeaderError {
    /// The file holds no line that is not blank
    EmptyFile,
    /// The format version is not `1`
    VersionMismatch(String),
    /// The header has no `events:` line
    MissingEvents,
}

impl HeaderError {
    /// The message of this error
    pub fn message(&self) -> (r: String)
        ensures
            match self {
                HeaderError::EmptyFile => r@ == "Empty file"@,
                HeaderError::VersionMismatch(v) => r@
                    == "Version mismatch: Requires callgrind format version '1' but was '"@ + v@
                    + "'"@,
                HeaderError::MissingEvents => r@ == "Header field 'events' must be present"@,
            },
    {
        match self {
            HeaderError::EmptyFile => owned("Empty file"),
            HeaderError::VersionMismatch(v) => {
                let mut c = to_chars("Version mismatch: Requires callgrind format version '1' but was '");
                append_str(&mut c, v.as_str());
                append_str(&mut c, "'");
                from_chars(&c)
            },
            HeaderError::MissingEvents => owned("Header field 'events' must be present"),
        }
    }
}

/// The properties of a callgrind output file from its header
#[derive(Debug)]
pub struct CallgrindProperties {
    /// The event kinds of the `events:` line, all with count zero
    pub costs_prototype: Costs,
    /// The position types of the `positions:` line, all with value zero
    pub positions_prototype: Positions,
    pub pid: Option<i32>,
    pub thread: Option<usize>,
    pub part: Option<u64>,
    pub desc: Vec<String>,
    pub cmd: Option<String>,
    pub creator: Option<String>,
}

/// The rank of an optional id: `None` before every id, then the ids ascending.
pub open spec fn rank_i32(o: Option<i32>) -> int {
    match o {
        Some(x) => x as int,
        None => -0x1_0000_0000_0000_0000,
    }
}

/// The rank of an optional id: `None` before every id, then the ids ascending.
pub open spec fn rank_u64(o: Option<u64>) -> int {
    match o {
        Some(x) => x as int,
        None => -0x1_0000_0000_0000_0000,
    }
}

/// The rank of an optional id: `None` before every id, then the ids ascending.
pub open spec fn rank_usize(o: Option<usize>) -> int {
    match o {
        Some(x) => x as int,
        None => -0x1_0000_0000_0000_0000,
    }
}

/// The target ids of the properties by rank, in their precedence: `pid`, `part`, `thread`.
pub open spec fn target_ids(p: CallgrindProperties) -> (int, int, int) {
    (rank_i32(p.pid), rank_u64(p.part), rank_usize(p.thread))
}

/// `a` comes before `b`: by the first id, then by the second, then by the third.
pub open spec fn target_ids_lt(a: (int, int, int), b: (int, int, int)) -> bool {
    ||| a.0 < b.0
    ||| a.0 == b.0 && a.1 < b.1
    ||| a.0 == b.0 && a.1 == b.1 && a.2 < b.2
}

/// The view of an optional string
pub open spec fn opt_view(s: Option<String>) -> Option<Seq<char>> {
    match s {
        Some(x) => Some(x@),
        None => None,
    }
}

/// The view of a list of strings
pub open spec fn strings_view(v: Seq<String>) -> Seq<Seq<char>> {
    v.map_values(|s: String| s@)
}

/// The header fields collected so far
struct HeaderFields {
    pid: Option<i32>,
    thread: Option<usize>,
    part: Option<u64>,
    desc: Vec<String>,
    cmd: Option<String>,
    creator: Option<String>,
    positions: Option<Vec<Vec<char>>>,
    events: Option<Vec<Vec<char>>>,
    version: Option<String>,
    malformed: bool,
}

impl HeaderFields {
    spec fn model(&self) -> HeaderState {
        HeaderState {
            pid: self.pid,
            thread: self.thread,
            part: self.part,
            desc: strings_view(self.desc@),
            cmd: opt_view(self.cmd),
            creator: opt_view(self.creator),
            positions: match self.positions {
                Some(p) => Some(p@.map_values(|x: Vec<char>| x@)),
                None => None,
            },
            events: match self.events {
                Some(p) => Some(p@.map_values(|x: Vec<char>| x@)),
                None => None,
            },
            version: opt_view(self.version),
            malformed: self.malformed,
        }
    }

    fn done(&self) -> (r: bool)
        ensures
            r == self.model().done(),
    {
        self.events.is_some() || self.version.is_some() || self.malformed
    }

    /// Apply the `key: value` entry of a header line
    fn apply_entry(&mut self, k: &Vec<char>, v: &Vec<char>)
        ensures
            final(self).model() == header_entry(old(self).model(), k@, v@),
    {
        proof {
            reveal_strlit("1");
            reveal(header_entry);
        }
        if eq_str(k, "version") && !eq_str(v, "1") {
            self.version = Some(from_chars(v));
        } else if eq_str(k, "pid") {
            match parse_i32_exec(v) {
                Some(x) => self.pid = Some(x),
                None => self.malformed = true,
            }
        } else if eq_str(k, "thread") {
            match parse_usize_exec(v) {
                Some(x) => self.thread = Some(x),
                None => self.malformed = true,
            }
        } else if eq_str(k, "part") {
            match parse_u64_exec(v) {
                Some(x) => self.part = Some(x),
                None => self.malformed = true,
            }
        } else if eq_str(k, "desc") && !starts_with(v, "Option:") {
            let ghost before = self.desc@;
            self.desc.push(from_chars(v));
            assert(strings_view(self.desc@) =~= strings_view(before).push(v@));
        } else if eq_str(k, "cmd") {
            self.cmd = Some(from_chars(v));
        } else if eq_str(k, "creator") {
            self.creator = Some(from_chars(v));
        } else if eq_str(k, "positions") {
            let names = words_exec(v);
            if all_positions_known(&names) {
                self.positions = Some(names);
            } else {
                self.malformed = true;
            }
        } else if eq_str(k, "events") {
            let names = words_exec(v);
            if all_events_known(&names) {
                self.events = Some(names);
            } else {
                self.malformed = true;
            }
        }
    }

    /// Apply a header line
    fn apply_line(&mut self, line: &String)
        ensures
            final(self).model() == header_step(old(self).model(), line@),
    {
        proof {
            reveal(header_step);
        }
        if self.done() {
            return;
        }
        let t = trim_chars(&to_chars(line.as_str()));
        if t.len() == 0 || t[0] == '#' {
            return;
        }
        match split_once_exec(&t, ':') {
            Some((k, v)) => {
                let k = trim_chars(&k);
                let v = trim_chars(&v);
                self.apply_entry(&k, &v);
            },
            None => {},
        }
    }
}

/// Whether every entry names a position type
fn all_positions_known(names: &Vec<Vec<char>>) -> (r: bool)
    ensures
        r == all_position_names(names@.map_values(|x: Vec<char>| x@)),
{
    let ghost ns = names@.map_values(|x: Vec<char>| x@);
    let mut i: usize = 0;
    while i < names.len()
        invariant
            0 <= i <= names.len(),
            ns == names@.map_values(|x: Vec<char>| x@),
            forall|j: int| 0 <= j < i ==> PositionType::spec_from_name(#[trigger] ns[j]) is Some,
        decreases names.len() - i,
    {
        let s = from_chars(&names[i]);
        if PositionType::try_from_name(s.as_str()).is_none() {
            assert(PositionType::spec_from_name(ns[i as int]) is None);
            return false;
        }
        i += 1;
    }
    true
}

/// Whether every entry names an event kind
fn all_events_known(names: &Vec<Vec<char>>) -> (r: bool)
    ensures
        r == all_event_names(names@.map_values(|x: Vec<char>| x@)),
{
    let ghost ns = names@.map_values(|x: Vec<char>| x@);
    let mut i: usize = 0;
    while i < names.len()
        invariant
            0 <= i <= names.len(),
            ns == names@.map_values(|x: Vec<char>| x@),
            forall|j: int| 0 <= j < i ==> EventKind::spec_from_name(#[trigger] ns[j]) is Some,
        decreases names.len() - i,
    {
        if EventKind::try_from_name(&names[i]).is_none() {
            assert(EventKind::spec_from_name(ns[i as int]) is None);
            return false;
        }
        i += 1;
    }
    true
}

/// The first line that is not blank is the one `first_content` picks.
proof fn lemma_first_content(lines: Seq<Seq<char>>, start: int, f: int)
    requires
        start <= f < lines.len(),
        trim(lines[f]).len() > 0,
        forall|j: int| start <= j < f ==> trim(#[trigger] lines[j]).len() == 0,
    ensures
        first_content(lines, start) == Some(f),
{
    assert(trim(lines[f]).len() > 0);
    let c = choose|i: int|
        start <= i < lines.len() && #[trigger] trim(lines[i]).len() > 0 && forall|j: int|
            start <= j < i ==> trim(lines[j]).len() == 0;
    assert(start <= c < lines.len() && trim(lines[c]).len() > 0 && forall|j: int|
        start <= j < c ==> trim(lines[j]).len() == 0);
    if c < f {
        assert(trim(lines[c]).len() == 0);
    }
    if f < c {
        assert(trim(lines[f]).len() == 0);
    }
}

/// The entries of the positions and events lines of the state name known kinds.
pub open spec fn names_known(st: HeaderState) -> bool {
    &&& st.events matches Some(e) ==> all_event_names(e)
    &&& st.positions matches Some(p) ==> all_position_names(p)
}

/// A header line keeps the entries of the positions and events lines known.
proof fn lemma_step_names_known(st: HeaderState, line: Seq<char>)
    requires
        names_known(st),
    ensures
        names_known(header_step(st, line)),
{
    reveal(header_step);
    reveal(header_entry);
}

/// The properties hold what the header state says.
pub open spec fn properties_match(props: CallgrindProperties, st: HeaderState) -> bool {
    &&& props.costs_prototype.wf()
    &&& props.costs_prototype@ == insert_all(Seq::empty(), event_pairs(st.events.unwrap()))
    &&& props.positions_prototype.wf()
    &&& props.positions_prototype@ == match st.positions {
        Some(ns) => positions_from_names(Seq::empty(), ns),
        None => seq![(PositionType::Line, 0u64)],
    }
    &&& props.pid == st.pid
    &&& props.thread == st.thread
    &&& props.part == st.part
    &&& strings_view(props.desc@) == st.desc
    &&& opt_view(props.cmd) == st.cmd
    &&& opt_view(props.creator) == st.creator
}

/// The result of the header parser for the final state `st` of a readable header: a version
/// mismatch, a missing events line, or the properties.
pub open spec fn header_result(r: Result<CallgrindProperties, HeaderError>, st: HeaderState) -> bool {
    match r {
        Err(HeaderError::VersionMismatch(e)) => st.version == Some(e@),
        Err(HeaderError::MissingEvents) => st.version is None && st.events is None,
        Err(HeaderError::EmptyFile) => false,
        Ok(props) => st.version is None && st.events is Some && properties_match(props, st),
    }
}

/// Parse the header of a callgrind output file from `lines[*pos..]`.
///
/// The first line that is not blank names the file format and is skipped. The header lines
/// follow as `key: value`; blank lines, comments (`#`) and lines without a `:` are skipped.
/// The `events:` line is the last line of the header. On return `*pos` is the index of the
/// first line after the header.
pub fn parse_header(lines: &Vec<String>, pos: &mut usize) -> (r: Result<
    CallgrindProperties,
    HeaderError,
>)
    requires
        *old(pos) <= lines.len(),
        header_readable(strings_view(lines@), *old(pos) as int),
    ensures
        ({
            let ls = strings_view(lines@);
            let st = header_state(ls, *old(pos) as int);
            match first_content(ls, *old(pos) as int) {
                None => r matches Err(HeaderError::EmptyFile) && *final(pos) == lines.len(),
                Some(f) => {
                    &&& f + 1 <= *final(pos) <= lines.len()
                    &&& header_fold(HeaderState::initial(), ls.subrange(f + 1, *final(pos) as int))
                        == st
                    &&& *final(pos) < lines.len() ==> header_fold(
                        HeaderState::initial(),
                        ls.subrange(f + 1, *final(pos) as int),
                    ).done() && !header_fold(
                        HeaderState::initial(),
                        ls.subrange(f + 1, *final(pos) - 1),
                    ).done()
                    &&& header_result(r, st)
                },
            }
        }),
{
    let ghost ls = strings_view(lines@);
    let ghost start = *pos as int;
    let mut i: usize = *pos;
    while i < lines.len() && trim_chars(&to_chars(lines[i].as_str())).len() == 0
        invariant
            0 <= start <= i <= lines.len(),
            ls == strings_view(lines@),
            forall|j: int| start <= j < i ==> trim(#[trigger] ls[j]).len() == 0,
        decreases lines.len() - i,
    {
        i += 1;
    }
    if i == lines.len() {
        *pos = i;
        assert(!exists|k: int| start <= k < ls.len() && #[trigger] trim(ls[k]).len() > 0);
        return Err(HeaderError::EmptyFile);
    }
    let ghost f = i as int;
    proof {
        lemma_first_content(ls, start, f);
    }
    i += 1;
    let mut fields = HeaderFields {
        pid: None,
        thread: None,
        part: None,
        desc: Vec::new(),
        cmd: None,
        creator: None,
        positions: None,
        events: None,
        version: None,
        malformed: false,
    };
    assert(strings_view(fields.desc@) =~= Seq::<Seq<char>>::empty());
    assert(fields.model() == HeaderState::initial());
    assert(ls.subrange(f + 1, f + 1) =~= Seq::<Seq<char>>::empty());
    while i < lines.len() && !fields.done()
        invariant
            0 <= f,
            f + 1 <= i <= lines.len(),
            ls == strings_view(lines@),
            ls.len() == lines.len(),
            names_known(fields.model()),
            fields.model() == header_fold(HeaderState::initial(), ls.subrange(f + 1, i as int)),
            i > f + 1 ==> !header_fold(HeaderState::initial(), ls.subrange(f + 1, i - 1)).done(),
        decreases lines.len() - i,
    {
        let ghost before = fields.model();
        proof {
            lemma_step_names_known(before, lines@[i as int]@);
        }
        fields.apply_line(&lines[i]);
        assert(ls.subrange(f + 1, i + 1).drop_last() =~= ls.subrange(f + 1, i as int));
        assert(ls.subrange(f + 1, i + 1).last() == lines@[i as int]@);
        i += 1;
    }
    *pos = i;
    proof {
        let st_i = header_fold(HeaderState::initial(), ls.subrange(f + 1, i as int));
        if i < lines.len() {
            lemma_header_fold_done(
                HeaderState::initial(),
                ls.subrange(f + 1, i as int),
                ls.subrange(i as int, ls.len() as int),
            );
            assert(ls.subrange(f + 1, i as int) + ls.subrange(i as int, ls.len() as int)
                =~= ls.subrange(f + 1, ls.len() as int));
        }
        assert(fields.model() == header_state(ls, start));
    }
    match fields.version {
        Some(v) => {
            return Err(HeaderError::VersionMismatch(v));
        },
        None => {},
    }
    match fields.events {
        None => Err(HeaderError::MissingEvents),
        Some(names) => {
            assert forall|j: int| 0 <= j < names.len() implies EventKind::spec_from_name(
                #[trigger] names@[j]@,
            ) is Some by {
                assert(names@.map_values(|x: Vec<char>| x@)[j] == names@[j]@);
            }
            let costs_prototype = Costs::from_event_names(&names);
            assert(names@.map_values(
                |n: Vec<char>| (EventKind::spec_from_name(n@).unwrap(), 0u64),
            ) =~= event_pairs(names@.map_values(|x: Vec<char>| x@)));
            let positions_prototype = match fields.positions {
                Some(ps) => {
                    assert forall|j: int| 0 <= j < ps.len() implies PositionType::spec_from_name(
                        #[trigger] ps@[j]@,
                    ) is Some by {
                        assert(ps@.map_values(|x: Vec<char>| x@)[j] == ps@[j]@);
                    }
                    let r = Positions::from_names(&ps);
                    assert(ps@.map_values(|n: Vec<char>| n@) =~= ps@.map_values(|x: Vec<char>| x@));
                    r
                },
                None => Positions::default_positions(),
            };
            Ok(
                CallgrindProperties {
                    costs_prototype,
                    positions_prototype,
                    pid: fields.pid,
                    thread: fields.thread,
                    part: fields.part,
                    desc: fields.desc,
                    cmd: fields.cmd,
                    creator: fields.creator,
                },
            )
        },
    }
}

/// Whether the header of `lines[pos..]` can be read: every number parses and every name is
/// known. Otherwise the header cannot be read at all.
pub fn header_is_readable(lines: &Vec<String>, pos: usize) -> (r: bool)
    requires
        pos <= lines.len(),
    ensures
        r == header_readable(strings_view(lines@), pos as int),
{
    let ghost ls = strings_view(lines@);
    let mut i: usize = pos;
    while i < lines.len() && trim_chars(&to_chars(lines[i].as_str())).len() == 0
        invariant
            pos <= i <= lines.len(),
            ls == strings_view(lines@),
            forall|j: int| pos <= j < i ==> trim(#[trigger] ls[j]).len() == 0,
        decreases lines.len() - i,
    {
        i += 1;
    }
    if i == lines.len() {
        assert(!exists|k: int| pos <= k < ls.len() && #[trigger] trim(ls[k]).len() > 0);
        return true;
    }
    let ghost f = i as int;
    proof {
        lemma_first_content(ls, pos as int, f);
    }
    i += 1;
    let mut fields = HeaderFields {
        pid: None,
        thread: None,
        part: None,
        desc: Vec::new(),
        cmd: None,
        creator: None,
        positions: None,
        events: None,
        version: None,
        malformed: false,
    };
    assert(strings_view(fields.desc@) =~= Seq::<Seq<char>>::empty());
    assert(fields.model() == HeaderState::initial());
    assert(ls.subrange(f + 1, f + 1) =~= Seq::<Seq<char>>::empty());
    while i < lines.len() && !fields.done()
        invariant
            0 <= f,
            f + 1 <= i <= lines.len(),
            ls == strings_view(lines@),
            ls.len() == lines.len(),
            fields.model() == header_fold(HeaderState::initial(), ls.subrange(f + 1, i as int)),
        decreases lines.len() - i,
    {
        fields.apply_line(&lines[i]);
        assert(ls.subrange(f + 1, i + 1).drop_last() =~= ls.subrange(f + 1, i as int));
        i += 1;
    }
    proof {
        if i < lines.len() {
            lemma_header_fold_done(
                HeaderState::initial(),
                ls.subrange(f + 1, i as int),
                ls.subrange(i as int, ls.len() as int),
            );
            assert(ls.subrange(f + 1, i as int) + ls.subrange(i as int, ls.len() as int)
                =~= ls.subrange(f + 1, ls.len() as int));
        }
    }
    !fields.malformed
}

/// The regular expression that turns an escaped glob into a regular expression: an escaped `*`
/// or `?` loses its backslash and gets a `.` in front.
pub const GLOB_TO_REGEX_PATTERN: &'static str = r"(\\)([*]|[?])";

/// A pattern that matches from the start to the end of a line: `^value$`.
pub open spec fn anchored(value: Seq<char>) -> Seq<char> {
    "^"@ + value + "$"@
}

/// The regular expression of a glob: escaped, with `*` and `?` turned into `.*` and `.?`.
pub open spec fn glob_regex(glob: Seq<char>) -> Seq<char> {
    regex_replace_all(GLOB_TO_REGEX_PATTERN@, escape_spec(glob), ".$2"@)
}

/// The segments joined with `::`.
pub open spec fn join_segments(segments: Seq<Seq<char>>) -> Seq<char>
    decreases segments.len(),
{
    if segments.len() == 0 {
        Seq::empty()
    } else if segments.len() == 1 {
        segments[0]
    } else {
        join_segments(segments.drop_last()) + "::"@ + segments.last()
    }
}

/// The error of a sentinel whose regular expression does not compile
#[derive(Debug, Clone, Copy, PartialEq, Eq)]
pub enum SentinelError {
    /// `Invalid sentinel`
    InvalidSentinel,
}

/// The sentinel: a regular expression matching the name of a function of interest from the
/// start to the end
#[derive(Debug)]
pub struct Sentinel(Pattern);

impl Sentinel {
    /// The source of the regular expression
    pub closed spec fn source(&self) -> Seq<char> {
        self.0.source()
    }

    /// Create a new Sentinel
    ///
    /// The value is converted to a regex internally which matches from line start to line end.
    /// Do not use this method if the input is a glob pattern or cannot be trusted! Use
    /// [`Sentinel::from_glob`] instead.
    pub fn new(value: &str) -> (r: Result<Sentinel, SentinelError>)
        ensures
            r is Ok <==> regex_valid(anchored(value@)),
            r matches Ok(s) ==> s.source() == anchored(value@),
    {
        let mut text = to_chars("^");
        append_str(&mut text, value);
        append_str(&mut text, "$");
        let text = from_chars(&text);
        match compile(text.as_str()) {
            Ok(re) => Ok(Sentinel(re)),
            Err(_) => Err(SentinelError::InvalidSentinel),
        }
    }

    /// Create a new Sentinel from a glob pattern
    ///
    /// Any `*` is replaced with `.*` and `?` with `.?` because the glob is a regex internally. A
    /// character that is a regex meta character is escaped, so this method produces a safe
    /// regular expression. The glob matches from the start to the end of the string.
    pub fn from_glob(glob: &str) -> (r: Result<Sentinel, SentinelError>)
        ensures
            r is Ok <==> regex_valid(GLOB_TO_REGEX_PATTERN@) && regex_valid(
                anchored(glob_regex(glob@)),
            ),
            r matches Ok(s) ==> s.source() == anchored(glob_regex(glob@)),
    {
        let escaped = escape(glob);
        let re = match compile(GLOB_TO_REGEX_PATTERN) {
            Ok(re) => re,
            Err(_) => return Err(SentinelError::InvalidSentinel),
        };
        let replaced = replace_all(&re, escaped.as_str(), ".$2");
        Sentinel::new(replaced.as_str())
    }

    /// Create a sentinel for the function `module::function`; the pattern must compile
    pub fn from_path(module: &str, function: &str) -> (r: Sentinel)
        requires
            regex_valid(anchored(module@ + "::"@ + function@)),
        ensures
            r.source() == anchored(module@ + "::"@ + function@),
    {
        let mut text = to_chars(module);
        append_str(&mut text, "::");
        append_str(&mut text, function);
        let text = from_chars(&text);
        Sentinel::new(text.as_str()).unwrap()
    }

    /// The sentinel for the function `module::function`, if its pattern compiles
    pub fn try_from_path(module: &str, function: &str) -> (r: Option<Sentinel>)
        ensures
            r is Some <==> regex_valid(anchored(module@ + "::"@ + function@)),
            r matches Some(s) ==> s.source() == anchored(module@ + "::"@ + function@),
    {
        let mut text = to_chars(module);
        append_str(&mut text, "::");
        append_str(&mut text, function);
        let text = from_chars(&text);
        match Sentinel::new(text.as_str()) {
            Ok(_) => Some(Sentinel::from_path(module, function)),
            Err(_) => None,
        }
    }

    /// Create a sentinel for the path of `segments` joined with `::`; the pattern must compile
    pub fn from_segments(segments: &Vec<String>) -> (r: Sentinel)
        requires
            regex_valid(anchored(join_segments(strings_view(segments@)))),
        ensures
            r.source() == anchored(join_segments(strings_view(segments@))),
    {
        let joined = join_strings(segments);
        Sentinel::new(joined.as_str()).unwrap()
    }

    /// The sentinel for the path of `segments`, if its pattern compiles
    pub fn try_from_segments(segments: &Vec<String>) -> (r: Option<Sentinel>)
        ensures
            r is Some <==> regex_valid(anchored(join_segments(strings_view(segments@)))),
            r matches Some(s) ==> s.source() == anchored(join_segments(strings_view(segments@))),
    {
        let joined = join_strings(segments);
        match Sentinel::new(joined.as_str()) {
            Ok(_) => Some(Sentinel::from_segments(segments)),
            Err(_) => None,
        }
    }

    /// A copy of this sentinel
    pub fn duplicate(&self) -> (r: Sentinel)
        ensures
            r.source() == self.source(),
    {
        Sentinel(clone_pattern(&self.0))
    }

    /// Return true if the sentinel matches the `haystack`
    pub fn matches(&self, haystack: &str) -> (r: bool)
        ensures
            r == regex_is_match(self.source(), haystack@),
    {
        is_match(&self.0, haystack)
    }

    /// The regular expression of this sentinel as text
    pub fn to_string(&self) -> (r: String)
        ensures
            r@ == self.source(),
    {
        owned(self.0.as_str())
    }

    /// Two sentinels are equal if their regular expressions are the same text
    pub fn eq(&self, other: &Sentinel) -> (r: bool)
        ensures
            r == (self.source() == other.source()),
    {
        let a = to_chars(self.0.as_str());
        let b = to_chars(other.0.as_str());
        crate::text::chars_eq(&a, &b)
    }
}

/// The strings joined with `::`
fn join_strings(segments: &Vec<String>) -> (r: String)
    ensures
        r@ == join_segments(strings_view(segments@)),
{
    let ghost sv = strings_view(segments@);
    let mut out: Vec<char> = Vec::new();
    let mut i: usize = 0;
    while i < segments.len()
        invariant
            0 <= i <= segments.len(),
            sv == strings_view(segments@),
            out@ == join_segments(sv.take(i as int)),
        decreases segments.len() - i,
    {
        if i > 0 {
            append_str(&mut out, "::");
        }
        append_str(&mut out, segments[i].as_str());
        assert(sv.take(i + 1).drop_last() =~= sv.take(i as int));
        assert(sv.take(i + 1).last() == segments@[i as int]@);
        if i == 0 {
            assert(sv.take(1) =~= seq![sv[0]]);
        }
        i += 1;
    }
    assert(sv.take(segments.len() as int) =~= sv);
    from_chars(&out)
}

} // verus!
