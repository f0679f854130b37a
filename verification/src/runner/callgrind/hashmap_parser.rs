//! The parser of a callgrind output file into a map from functions to their inclusive costs,
//! after the way `callgrind_annotate` sums them up.
use vstd::prelude::*;

use crate::callgrind::{line_views, token_views};
use crate::collections::{
    kv_distinct, kv_get, kv_insert, kv_insert_all, kv_position, lemma_kv_insert, lemma_kv_insert_other,
    lemma_kv_position,
};
use crate::paths::{path_strip_prefix, strip_prefix as strip_path_prefix};
use crate::pattern::regex_is_match;
use crate::runner::callgrind::parser::{CallgrindProperties, Sentinel};
use crate::runner::costs::{add_tokens, add_values, tokens_addable, values_addable, Costs};
use crate::text::{
    from_chars, owned, parse_u64, parse_u64_exec, split_once, split_once_exec, starts_with, to_chars,
    trim, trim_chars, words, words_exec, words_unicode, words_unicode_exec,
};

verus! {

/// The view of a function id: the object file, the source file and the function name.
pub type IdView = (Option<Seq<char>>, Option<Seq<char>>, Seq<char>);

/// The id of a function: the object file, the source file and the function name
#[derive(Debug, Clone, PartialEq, Eq, Hash)]
pub struct Id {
    pub obj: Option<String>,
    pub file: Option<String>,
    pub func: String,
}

/// The view of an optional string
pub open spec fn opt_text(s: Option<String>) -> Option<Seq<char>> {
    match s {
        Some(x) => Some(x@),
        None => None,
    }
}

impl View for Id {
    type V = IdView;

    open spec fn view(&self) -> IdView {
        (opt_text(self.obj), opt_text(self.file), self.func@)
    }
}

/// A copy of an optional string
fn copy_opt(s: &Option<String>) -> (r: Option<String>)
    ensures
        opt_text(r) == opt_text(*s),
{
    match s {
        Some(x) => Some(owned(x.as_str())),
        None => None,
    }
}

/// Two optional strings are equal
fn opt_eq(a: &Option<String>, b: &Option<String>) -> (r: bool)
    ensures
        r == (opt_text(*a) == opt_text(*b)),
{
    match (a, b) {
        (Some(x), Some(y)) => crate::text::chars_eq(&to_chars(x.as_str()), &to_chars(y.as_str())),
        (None, None) => true,
        _ => false,
    }
}

impl Id {
    /// A copy of this id
    pub fn duplicate(&self) -> (r: Id)
        ensures
            r@ == self@,
    {
        Id { obj: copy_opt(&self.obj), file: copy_opt(&self.file), func: owned(self.func.as_str()) }
    }

    /// Whether two ids are equal
    pub fn same(&self, other: &Id) -> (r: bool)
        ensures
            r == (self@ == other@),
    {
        opt_eq(&self.obj, &other.obj) && opt_eq(&self.file, &other.file) && crate::text::chars_eq(
            &to_chars(self.func.as_str()),
            &to_chars(other.func.as_str()),
        )
    }
}

/// The costs of a function
#[derive(Debug)]
pub struct Value {
    pub costs: Costs,
}

/// The record of a called function: its object file, source file, id and call count.
pub ghost struct CfnView {
    pub obj: Option<Seq<char>>,
    pub file: Option<Seq<char>>,
    pub name: Option<IdView>,
    pub calls: u64,
}

/// The state of the parser after some lines.
pub ghost struct MapState {
    pub curr_obj: Option<Seq<char>>,
    pub curr_file: Option<Seq<char>>,
    pub curr_fn: Option<Seq<char>>,
    pub curr_name: Option<IdView>,
    pub cfn: Option<CfnView>,
    pub curr_costs: Seq<u64>,
    pub cfn_totals: Seq<(IdView, Seq<u64>)>,
    pub fn_totals: Seq<(IdView, Seq<u64>)>,
    pub sentinel_key: Option<IdView>,
    pub is_header: bool,
    /// A line that is no callgrind record: reading stops there
    pub malformed: bool,
}

/// What the parser reads the lines with: the project root, the sentinel pattern, the counts of
/// the prototype costs and the number of position columns.
pub ghost struct MapContext {
    pub root: Seq<char>,
    pub sentinel: Option<Seq<char>>,
    pub proto: Seq<u64>,
    pub npos: int,
}

/// `s` without its first `n` elements; empty if it has no more.
pub open spec fn drop_front<T>(s: Seq<T>, n: int) -> Seq<T> {
    if n <= s.len() {
        s.skip(n)
    } else {
        Seq::empty()
    }
}

/// A path relative to the project root if it lies below it, as it is otherwise.
pub open spec fn make_path(root: Seq<char>, source: Seq<char>) -> Seq<char> {
    match path_strip_prefix(source, root) {
        Some(s) => s,
        None => source,
    }
}

/// The state before the first line
pub open spec fn map_start(proto: Seq<u64>) -> MapState {
    MapState {
        curr_obj: None,
        curr_file: None,
        curr_fn: None,
        curr_name: None,
        cfn: None,
        curr_costs: proto,
        cfn_totals: Seq::empty(),
        fn_totals: Seq::empty(),
        sentinel_key: None,
        is_header: true,
        malformed: false,
    }
}

/// The costs recorded for `id`, or the prototype.
pub open spec fn costs_or_proto(totals: Seq<(IdView, Seq<u64>)>, id: IdView, proto: Seq<u64>) -> Seq<u64> {
    match kv_get(totals, id) {
        Some(c) => c,
        None => proto,
    }
}

/// The record of the called function, or an empty one.
pub open spec fn cfn_or_default(c: Option<CfnView>) -> CfnView {
    match c {
        Some(r) => r,
        None => CfnView { obj: None, file: None, name: None, calls: 0 },
    }
}

/// `fn=func`: commit the costs of the current function, checking it against the sentinel, and
/// start the function `func` with the costs it has so far.
pub open spec fn map_fn(st: MapState, func: Seq<char>, ctx: MapContext) -> MapState {
    let st1 = match st.curr_name {
        Some(id) => MapState {
            sentinel_key: if ctx.sentinel matches Some(p) && regex_is_match(p, id.2) {
                Some(id)
            } else {
                st.sentinel_key
            },
            fn_totals: kv_insert(st.fn_totals, id, st.curr_costs),
            curr_name: None,
            ..st
        },
        None => st,
    };
    let tmp = (st1.curr_obj, st1.curr_file, func);
    MapState {
        curr_fn: Some(func),
        curr_costs: costs_or_proto(st1.fn_totals, tmp, ctx.proto),
        curr_name: Some(tmp),
        ..st1
    }
}

/// `fi=file` or `fe=file`: commit the costs of the current function and continue it in the
/// inlined source file.
pub open spec fn map_inline(st: MapState, inline: Seq<char>, ctx: MapContext) -> MapState {
    match (st.curr_name, st.curr_fn) {
        (Some(name), Some(f)) => {
            let fn_totals = kv_insert(st.fn_totals, name, st.curr_costs);
            let file = Some(make_path(ctx.root, inline));
            let new_name = (st.curr_obj, file, f);
            MapState {
                fn_totals,
                curr_file: file,
                curr_name: Some(new_name),
                curr_costs: costs_or_proto(fn_totals, new_name, ctx.proto),
                ..st
            }
        },
        _ => MapState { malformed: true, ..st },
    }
}

/// A cost line: add its counts to the current function and, after a call, to the called one.
pub open spec fn map_cost(st: MapState, t: Seq<char>, ctx: MapContext) -> MapState {
    let toks = drop_front(words_unicode(t), ctx.npos);
    if !tokens_addable(ctx.proto, toks) {
        MapState { malformed: true, ..st }
    } else {
        let costs = add_tokens(ctx.proto, toks);
        if !values_addable(st.curr_costs, costs) {
            MapState { malformed: true, ..st }
        } else {
            let st1 = MapState { curr_costs: add_values(st.curr_costs, costs), ..st };
            match st.cfn {
                None => st1,
                Some(rec) => match rec.name {
                    None => MapState { malformed: true, ..st1 },
                    Some(n) => match kv_get(st.cfn_totals, n) {
                        Some(v) => if values_addable(v, costs) {
                            MapState {
                                cfn: None,
                                cfn_totals: kv_insert(st.cfn_totals, n, add_values(v, costs)),
                                ..st1
                            }
                        } else {
                            MapState { malformed: true, ..st1 }
                        },
                        None => MapState {
                            cfn: None,
                            cfn_totals: kv_insert(st.cfn_totals, n, costs),
                            ..st1
                        },
                    },
                },
            }
        }
    }
}

/// A cost line after a call to `n` adds its counts to the inclusive costs of `n`: to those it
/// has from earlier calls, count by count, or as its first costs; the costs of every other
/// called function stay, the current function gets the counts too, and the call is done. So a
/// function called from two call sites gets the sum of both.
pub proof fn lemma_call_costs_add_up(st: MapState, t: Seq<char>, ctx: MapContext, n: IdView)
    requires
        kv_distinct(st.cfn_totals),
        st.cfn matches Some(rec) && rec.name == Some(n),
    ensures
        ({
            let line = add_tokens(ctx.proto, drop_front(words_unicode(t), ctx.npos));
            let r = map_cost(st, t, ctx);
            !r.malformed ==> {
                &&& r.cfn is None
                &&& kv_distinct(r.cfn_totals)
                &&& kv_get(r.cfn_totals, n) matches Some(c)
                &&& (kv_get(st.cfn_totals, n) matches Some(v) ==> c.len() == v.len() && forall|i: int|
                    0 <= i < v.len() ==> #[trigger] c[i] == v[i] + (if i < line.len() { line[i] as int } else { 0 }))
                &&& (kv_get(st.cfn_totals, n) is None ==> c == line)
                &&& forall|m: IdView| m != n ==> #[trigger] kv_get(r.cfn_totals, m) == kv_get(st.cfn_totals, m)
                &&& r.curr_costs.len() == st.curr_costs.len()
                &&& forall|i: int| 0 <= i < st.curr_costs.len() ==> #[trigger] r.curr_costs[i] == st.curr_costs[i]
                    + (if i < line.len() { line[i] as int } else { 0 })
            }
        }),
{
    let line = add_tokens(ctx.proto, drop_front(words_unicode(t), ctx.npos));
    let r = map_cost(st, t, ctx);
    if !r.malformed {
        match kv_get(st.cfn_totals, n) {
            Some(v) => {
                lemma_kv_insert(st.cfn_totals, n, add_values(v, line));
                assert forall|m: IdView| m != n implies #[trigger] kv_get(r.cfn_totals, m) == kv_get(st.cfn_totals, m) by {
                    lemma_kv_insert_other(st.cfn_totals, n, add_values(v, line), m);
                }
            },
            None => {
                lemma_kv_insert(st.cfn_totals, n, line);
                assert forall|m: IdView| m != n implies #[trigger] kv_get(r.cfn_totals, m) == kv_get(st.cfn_totals, m) by {
                    lemma_kv_insert_other(st.cfn_totals, n, line, m);
                }
            },
        }
    }
}

/// The state after the line `key=value` (`t` is the whole trimmed line).
pub open spec fn map_entry(st: MapState, k: Seq<char>, v: Seq<char>, ctx: MapContext) -> MapState {
    if k == "ob"@ {
        MapState { curr_obj: Some(make_path(ctx.root, v)), ..st }
    } else if k == "fl"@ {
        MapState { curr_file: Some(make_path(ctx.root, v)), ..st }
    } else if k == "fn"@ {
        map_fn(st, v, ctx)
    } else if k == "fi"@ || k == "fe"@ {
        map_inline(st, v, ctx)
    } else if k == "cob"@ {
        MapState { cfn: Some(CfnView { obj: Some(make_path(ctx.root, v)), ..cfn_or_default(st.cfn) }), ..st }
    } else if k == "cfi"@ || k == "cfl"@ {
        MapState { cfn: Some(CfnView { file: Some(make_path(ctx.root, v)), ..cfn_or_default(st.cfn) }), ..st }
    } else if k == "cfn"@ {
        let rec = cfn_or_default(st.cfn);
        let obj = match rec.obj { Some(o) => Some(o), None => st.curr_obj };
        let file = match rec.file { Some(f) => Some(f), None => st.curr_file };
        MapState { cfn: Some(CfnView { name: Some((obj, file, v)), ..rec }), ..st }
    } else if k == "calls"@ {
        match st.cfn {
            None => MapState { malformed: true, ..st },
            Some(rec) => {
                let toks = words(v);
                if toks.len() == 0 {
                    MapState { cfn: Some(CfnView { calls: 0, ..rec }), ..st }
                } else {
                    match parse_u64(toks[0]) {
                        Some(n) => MapState { cfn: Some(CfnView { calls: n, ..rec }), ..st },
                        None => MapState { malformed: true, ..st },
                    }
                }
            },
        }
    } else if k == "jump"@ || k == "jcnd"@ || k == "jfi"@ || k == "jfn"@ {
        st
    } else {
        MapState { malformed: true, ..st }
    }
}

/// The state after a line. Blank lines and comments are skipped; in the header, which ends at
/// the first line with a `=`, lines without one are skipped too.
#[verifier::opaque]
pub open spec fn map_step(st: MapState, line: Seq<char>, ctx: MapContext) -> MapState {
    let t = trim(line);
    if st.malformed || t.len() == 0 || t[0] == '#' {
        st
    } else if st.is_header && split_once(t, '=') is None {
        st
    } else {
        let st = MapState { is_header: false, ..st };
        match split_once(t, '=') {
            Some((k, v)) => map_entry(st, k, v, ctx),
            None => if '0' <= t[0] && t[0] <= '9' {
                map_cost(st, t, ctx)
            } else if "totals:"@.is_prefix_of(t) || "summary:"@.is_prefix_of(t) {
                st
            } else {
                MapState { malformed: true, ..st }
            },
        }
    }
}

/// The state after the lines, one after the other.
pub open spec fn map_fold(st: MapState, lines: Seq<Seq<char>>, ctx: MapContext) -> MapState
    decreases lines.len(),
{
    if lines.len() == 0 {
        st
    } else {
        map_step(map_fold(st, lines.drop_last(), ctx), lines.last(), ctx)
    }
}

/// The map at the end of the file: the current function is committed if the header ended,
/// then the costs of the called functions replace those of the same functions.
pub open spec fn map_finish(st: MapState) -> MapState {
    if st.malformed {
        st
    } else if st.is_header {
        MapState { fn_totals: kv_insert_all(st.fn_totals, st.cfn_totals), ..st }
    } else {
        match st.curr_fn {
            None => MapState { malformed: true, ..st },
            Some(f) => MapState {
                fn_totals: kv_insert_all(
                    kv_insert(st.fn_totals, (st.curr_obj, st.curr_file, f), st.curr_costs),
                    st.cfn_totals,
                ),
                ..st
            },
        }
    }
}

/// The result of the parser for the lines of the body of a callgrind file.
pub open spec fn map_result(lines: Seq<Seq<char>>, ctx: MapContext) -> MapState {
    map_finish(map_fold(map_start(ctx.proto), lines, ctx))
}

/// The view of a map from functions to costs: the ids with the counts.
pub open spec fn totals_view(m: Seq<(Id, Value)>) -> Seq<(IdView, Seq<u64>)> {
    m.map_values(|e: (Id, Value)| (e.0@, e.1.costs.values()))
}

/// Every costs of the map is well formed with the event kinds `kinds`.
pub open spec fn totals_ok(m: Seq<(Id, Value)>, kinds: Seq<crate::api::EventKind>) -> bool {
    forall|i: int| 0 <= i < m.len() ==> (#[trigger] m[i]).1.costs.wf() && m[i].1.costs.kinds() == kinds
}

/// The position of the entry of `id`
pub(crate) fn find_id(m: &Vec<(Id, Value)>, id: &Id) -> (r: Option<usize>)
    requires
        kv_distinct(totals_view(m@)),
    ensures
        r matches Some(i) ==> kv_position(totals_view(m@), id@) == Some(i as int) && i < m.len(),
        r is None ==> kv_position(totals_view(m@), id@) is None,
{
    let ghost tv = totals_view(m@);
    proof {
        lemma_kv_position(tv, id@);
    }
    let mut i: usize = 0;
    while i < m.len()
        invariant
            0 <= i <= m.len(),
            tv == totals_view(m@),
            kv_distinct(tv),
            forall|j: int| 0 <= j < i ==> tv[j].0 != id@,
        decreases m.len() - i,
    {
        if m[i].0.same(id) {
            assert(tv[i as int].0 == id@);
            proof {
                lemma_kv_position(tv, id@);
            }
            return Some(i);
        }
        i += 1;
    }
    proof {
        lemma_kv_position(tv, id@);
    }
    None
}

/// A copy of the costs of `id`, or of the prototype
fn costs_of(m: &Vec<(Id, Value)>, id: &Id, proto: &Costs) -> (r: Costs)
    requires
        kv_distinct(totals_view(m@)),
        totals_ok(m@, proto.kinds()),
        proto.wf(),
    ensures
        r.wf(),
        r.kinds() == proto.kinds(),
        r.values() == costs_or_proto(totals_view(m@), id@, proto.values()),
{
    match find_id(m, id) {
        Some(i) => {
            assert(totals_view(m@)[i as int].1 == m@[i as int].1.costs.values());
            m[i].1.costs.duplicate()
        },
        None => proto.duplicate(),
    }
}

/// Insert or replace the costs of `id`
fn insert_costs(m: &mut Vec<(Id, Value)>, id: Id, costs: Costs)
    requires
        kv_distinct(totals_view(old(m)@)),
        totals_ok(old(m)@, costs.kinds()),
        costs.wf(),
    ensures
        kv_distinct(totals_view(final(m)@)),
        totals_ok(final(m)@, costs.kinds()),
        totals_view(final(m)@) == kv_insert(totals_view(old(m)@), id@, costs.values()),
{
    let ghost tv = totals_view(m@);
    let ghost kinds = costs.kinds();
    proof {
        lemma_kv_insert(tv, id@, costs.values());
    }
    match find_id(m, &id) {
        Some(i) => {
            m.set(i, (id, Value { costs }));
            assert(totals_view(m@) =~= tv.update(i as int, (id@, costs.values())));
        },
        None => {
            m.push((id, Value { costs }));
            assert(totals_view(m@) =~= tv.push((id@, costs.values())));
        },
    }
    assert forall|i: int| 0 <= i < m@.len() implies (#[trigger] m@[i]).1.costs.wf() && m@[i].1.costs.kinds() == kinds by {
    }
}

/// Whether the counts of `tokens` parse and can be added to the costs without overflow
pub(crate) fn tokens_addable_exec(costs: &Costs, tokens: &Vec<Vec<char>>) -> (r: bool)
    requires
        costs.wf(),
    ensures
        r == tokens_addable(costs.values(), token_views(tokens@)),
{
    let ghost toks = token_views(tokens@);
    let n = costs.len();
    let mut i: usize = 0;
    while i < n && i < tokens.len()
        invariant
            0 <= i <= n,
            n == costs@.len(),
            toks == token_views(tokens@),
            forall|j: int|
                0 <= j < i && j < toks.len() ==> {
                    &&& #[trigger] parse_u64(toks[j]) is Some
                    &&& costs.values()[j] + parse_u64(toks[j]).unwrap() <= u64::MAX
                },
        decreases n - i,
    {
        assert(toks[i as int] == tokens@[i as int]@);
        match (parse_u64_exec(&tokens[i]), costs.cost_by_index(i)) {
            (Some(x), Some(c)) => {
                assert(costs.values()[i as int] == c);
                if x > u64::MAX - c {
                    return false;
                }
            },
            _ => {
                return false;
            },
        }
        i += 1;
    }
    true
}

/// Whether the counts of `b` can be added to those of `a` without overflow
fn values_addable_exec(a: &Costs, b: &Costs) -> (r: bool)
    requires
        a.wf(),
        b.wf(),
    ensures
        r == values_addable(a.values(), b.values()),
{
    let n = a.len();
    let m = b.len();
    let mut i: usize = 0;
    while i < n && i < m
        invariant
            0 <= i <= n,
            n == a@.len(),
            m == b@.len(),
            forall|j: int| 0 <= j < i && j < m ==> #[trigger] a.values()[j] + b.values()[j] <= u64::MAX,
        decreases n - i,
    {
        match (a.cost_by_index(i), b.cost_by_index(i)) {
            (Some(x), Some(y)) => {
                assert(a.values()[i as int] == x);
                assert(b.values()[i as int] == y);
                if y > u64::MAX - x {
                    return false;
                }
            },
            _ => {},
        }
        i += 1;
    }
    true
}

/// A path relative to the project root if it lies below it
fn make_path_exec(root: &str, source: &Vec<char>) -> (r: String)
    ensures
        r@ == make_path(root@, source@),
{
    let s = from_chars(source);
    match strip_path_prefix(s.as_str(), root) {
        Some(p) => p,
        None => s,
    }
}

/// The record of a called function
struct CfnRecord {
    obj: Option<String>,
    file: Option<String>,
    name: Option<Id>,
    calls: u64,
}

/// The view of an optional id
pub open spec fn opt_id(i: Option<Id>) -> Option<IdView> {
    match i {
        Some(x) => Some(x@),
        None => None,
    }
}

/// The parser state
struct MapParser {
    curr_obj: Option<String>,
    curr_file: Option<String>,
    curr_fn: Option<String>,
    curr_name: Option<Id>,
    cfn: Option<CfnRecord>,
    curr_costs: Costs,
    cfn_totals: Vec<(Id, Value)>,
    fn_totals: Vec<(Id, Value)>,
    sentinel_key: Option<Id>,
    is_header: bool,
    malformed: bool,
}

/// The pattern of an optional sentinel
pub open spec fn sentinel_source(sentinel: Option<&Sentinel>) -> Option<Seq<char>> {
    match sentinel {
        Some(s) => Some(s.source()),
        None => None,
    }
}

/// The context of the parser as a spec value
pub open spec fn map_context(root: Seq<char>, sentinel: Option<Seq<char>>, proto: &Costs, npos: int) -> MapContext {
    MapContext { root, sentinel, proto: proto.values(), npos }
}

impl MapParser {
    spec fn model(&self) -> MapState {
        MapState {
            curr_obj: opt_text(self.curr_obj),
            curr_file: opt_text(self.curr_file),
            curr_fn: opt_text(self.curr_fn),
            curr_name: opt_id(self.curr_name),
            cfn: match self.cfn {
                Some(c) => Some(CfnView { obj: opt_text(c.obj), file: opt_text(c.file), name: opt_id(c.name), calls: c.calls }),
                None => None,
            },
            curr_costs: self.curr_costs.values(),
            cfn_totals: totals_view(self.cfn_totals@),
            fn_totals: totals_view(self.fn_totals@),
            sentinel_key: opt_id(self.sentinel_key),
            is_header: self.is_header,
            malformed: self.malformed,
        }
    }

    spec fn inv(&self, kinds: Seq<crate::api::EventKind>) -> bool {
        &&& self.curr_costs.wf()
        &&& self.curr_costs.kinds() == kinds
        &&& totals_ok(self.cfn_totals@, kinds)
        &&& totals_ok(self.fn_totals@, kinds)
        &&& kv_distinct(totals_view(self.cfn_totals@))
        &&& kv_distinct(totals_view(self.fn_totals@))
    }

    /// `fn=func`
    fn apply_fn(&mut self, func: &Vec<char>, sentinel: Option<&Sentinel>, proto: &Costs, Ghost(ctx): Ghost<MapContext>)
        requires
            old(self).inv(proto.kinds()),
            proto.wf(),
            ctx.proto == proto.values(),
            ctx.sentinel == match sentinel { Some(s) => Some(s.source()), None => None },
        ensures
            final(self).inv(proto.kinds()),
            final(self).model() == map_fn(old(self).model(), func@, ctx),
    {
        match self.curr_name.take() {
            Some(id) => {
                let is_sentinel = match sentinel {
                    Some(s) => s.matches(id.func.as_str()),
                    None => false,
                };
                if is_sentinel {
                    self.sentinel_key = Some(id.duplicate());
                }
                let costs = self.curr_costs.duplicate();
                insert_costs(&mut self.fn_totals, id, costs);
            },
            None => {},
        }
        let tmp = Id { file: copy_opt(&self.curr_file), func: from_chars(func), obj: copy_opt(&self.curr_obj) };
        self.curr_fn = Some(from_chars(func));
        self.curr_costs = costs_of(&self.fn_totals, &tmp, proto);
        self.curr_name = Some(tmp);
    }

    /// `fi=file` or `fe=file`
    fn apply_inline(&mut self, inline: &Vec<char>, root: &str, proto: &Costs, Ghost(ctx): Ghost<MapContext>)
        requires
            old(self).inv(proto.kinds()),
            proto.wf(),
            ctx.proto == proto.values(),
            ctx.root == root@,
        ensures
            final(self).inv(proto.kinds()),
            final(self).model() == map_inline(old(self).model(), inline@, ctx),
    {
        if self.curr_name.is_none() || self.curr_fn.is_none() {
            self.malformed = true;
            return;
        }
        let name = match self.curr_name.take() {
            Some(n) => n,
            None => {
                return;
            },
        };
        let f = match &self.curr_fn {
            Some(f) => owned(f.as_str()),
            None => {
                return;
            },
        };
        let costs = self.curr_costs.duplicate();
        insert_costs(&mut self.fn_totals, name, costs);
        self.curr_file = Some(make_path_exec(root, inline));
        let new_name = Id { obj: copy_opt(&self.curr_obj), file: copy_opt(&self.curr_file), func: f };
        self.curr_costs = costs_of(&self.fn_totals, &new_name, proto);
        self.curr_name = Some(new_name);
    }

    /// A cost line `t`
    fn apply_cost(&mut self, t: &Vec<char>, proto: &Costs, npos: usize, Ghost(ctx): Ghost<MapContext>)
        requires
            old(self).inv(proto.kinds()),
            proto.wf(),
            ctx.proto == proto.values(),
            ctx.npos == npos,
        ensures
            final(self).inv(proto.kinds()),
            final(self).model() == map_cost(old(self).model(), t@, ctx),
    {
        let all = words_unicode_exec(t);
        let start = if npos < all.len() {
            npos
        } else {
            all.len()
        };
        let mut toks: Vec<Vec<char>> = Vec::new();
        let mut i: usize = start;
        assert(token_views(toks@) =~= token_views(all@).subrange(start as int, start as int));
        while i < all.len()
            invariant
                start <= i <= all.len(),
                token_views(toks@) == token_views(all@).subrange(start as int, i as int),
            decreases all.len() - i,
        {
            let ghost before = toks@;
            let x = crate::text::sub_chars(&all[i], 0, all[i].len());
            assert(x@ =~= all@[i as int]@);
            toks.push(x);
            assert(token_views(toks@) =~= token_views(before).push(all@[i as int]@));
            assert(token_views(all@).subrange(start as int, i + 1) =~= token_views(all@).subrange(start as int, i as int).push(all@[i as int]@));
            i += 1;
        }
        assert(token_views(toks@) =~= drop_front(words_unicode(t@), npos as int)) by {
            assert(token_views(all@) == words_unicode(t@));
        }
        if !tokens_addable_exec(proto, &toks) {
            self.malformed = true;
            return;
        }
        let mut costs = proto.duplicate();
        costs.add_iter_str(&toks);
        if !values_addable_exec(&self.curr_costs, &costs) {
            self.malformed = true;
            return;
        }
        self.curr_costs.add(&costs);
        match self.cfn.take() {
            None => {},
            Some(rec) => {
                match rec.name {
                    None => {
                        self.cfn = Some(CfnRecord { obj: rec.obj, file: rec.file, name: None, calls: rec.calls });
                        self.malformed = true;
                    },
                    Some(n) => {
                        match find_id(&self.cfn_totals, &n) {
                            Some(pos) => {
                                assert(totals_view(self.cfn_totals@)[pos as int].1 == self.cfn_totals@[pos as int].1.costs.values());
                                let mut v = self.cfn_totals[pos].1.costs.duplicate();
                                if values_addable_exec(&v, &costs) {
                                    v.add(&costs);
                                    insert_costs(&mut self.cfn_totals, n, v);
                                } else {
                                    self.cfn = Some(CfnRecord { obj: rec.obj, file: rec.file, name: Some(n), calls: rec.calls });
                                    self.malformed = true;
                                }
                            },
                            None => {
                                insert_costs(&mut self.cfn_totals, n, costs);
                            },
                        }
                    },
                }
            },
        }
    }
}

impl MapParser {
    /// The record of the called function, created empty if there is none
    fn take_cfn(&mut self) -> (r: CfnRecord)
        ensures
            final(self).cfn is None,
            final(self).model() == (MapState { cfn: None, ..old(self).model() }),
            (CfnView { obj: opt_text(r.obj), file: opt_text(r.file), name: opt_id(r.name), calls: r.calls })
                == cfn_or_default(old(self).model().cfn),
            final(self).curr_costs == old(self).curr_costs,
            final(self).cfn_totals == old(self).cfn_totals,
            final(self).fn_totals == old(self).fn_totals,
    {
        match self.cfn.take() {
            Some(r) => r,
            None => CfnRecord { obj: None, file: None, name: None, calls: 0 },
        }
    }

    /// The line `key=value`
    #[verifier::rlimit(60)]
    fn apply_entry(
        &mut self,
        k: &Vec<char>,
        v: &Vec<char>,
        root: &str,
        sentinel: Option<&Sentinel>,
        proto: &Costs,
        Ghost(ctx): Ghost<MapContext>,
    )
        requires
            old(self).inv(proto.kinds()),
            proto.wf(),
            ctx == map_context(root@, sentinel_source(sentinel), proto, ctx.npos),
        ensures
            final(self).inv(proto.kinds()),
            final(self).model() == map_entry(old(self).model(), k@, v@, ctx),
    {
        if crate::text::eq_str(k, "ob") {
            self.curr_obj = Some(make_path_exec(root, v));
        } else if crate::text::eq_str(k, "fl") {
            self.curr_file = Some(make_path_exec(root, v));
        } else if crate::text::eq_str(k, "fn") {
            self.apply_fn(v, sentinel, proto, Ghost(ctx));
        } else if crate::text::eq_str(k, "fi") || crate::text::eq_str(k, "fe") {
            self.apply_inline(v, root, proto, Ghost(ctx));
        } else if crate::text::eq_str(k, "cob") {
            let rec = self.take_cfn();
            self.cfn = Some(CfnRecord { obj: Some(make_path_exec(root, v)), file: rec.file, name: rec.name, calls: rec.calls });
        } else if crate::text::eq_str(k, "cfi") || crate::text::eq_str(k, "cfl") {
            let rec = self.take_cfn();
            self.cfn = Some(CfnRecord { obj: rec.obj, file: Some(make_path_exec(root, v)), name: rec.name, calls: rec.calls });
        } else if crate::text::eq_str(k, "cfn") {
            let rec = self.take_cfn();
            let obj = match &rec.obj {
                Some(o) => Some(owned(o.as_str())),
                None => copy_opt(&self.curr_obj),
            };
            let file = match &rec.file {
                Some(f) => Some(owned(f.as_str())),
                None => copy_opt(&self.curr_file),
            };
            self.cfn = Some(CfnRecord { obj: rec.obj, file: rec.file, name: Some(Id { obj, file, func: from_chars(v) }), calls: rec.calls });
        } else if crate::text::eq_str(k, "calls") {
            match self.cfn.take() {
                None => {
                    self.malformed = true;
                },
                Some(rec) => {
                    let toks = words_exec(v);
                    if toks.len() == 0 {
                        self.cfn = Some(CfnRecord { obj: rec.obj, file: rec.file, name: rec.name, calls: 0 });
                    } else {
                        assert(token_views(toks@)[0] == toks@[0]@);
                        match parse_u64_exec(&toks[0]) {
                            Some(n) => {
                                self.cfn = Some(CfnRecord { obj: rec.obj, file: rec.file, name: rec.name, calls: n });
                            },
                            None => {
                                self.cfn = Some(rec);
                                self.malformed = true;
                            },
                        }
                    }
                },
            }
        } else if crate::text::eq_str(k, "jump") || crate::text::eq_str(k, "jcnd") || crate::text::eq_str(k, "jfi") || crate::text::eq_str(k, "jfn") {
        } else {
            self.malformed = true;
        }
    }
}

impl MapParser {
    /// A line of the file
    fn apply_line(
        &mut self,
        line: &String,
        root: &str,
        sentinel: Option<&Sentinel>,
        proto: &Costs,
        npos: usize,
        Ghost(ctx): Ghost<MapContext>,
    )
        requires
            old(self).inv(proto.kinds()),
            proto.wf(),
            ctx == map_context(root@, sentinel_source(sentinel), proto, npos as int),
        ensures
            final(self).inv(proto.kinds()),
            final(self).model() == map_step(old(self).model(), line@, ctx),
    {
        proof {
            reveal(map_step);
        }
        let t = trim_chars(&to_chars(line.as_str()));
        if self.malformed || t.len() == 0 || t[0] == '#' {
            return;
        }
        let split = split_once_exec(&t, '=');
        if self.is_header && split.is_none() {
            return;
        }
        self.is_header = false;
        match split {
            Some((k, v)) => {
                self.apply_entry(&k, &v, root, sentinel, proto, Ghost(ctx));
            },
            None => {
                if '0' <= t[0] && t[0] <= '9' {
                    self.apply_cost(&t, proto, npos, Ghost(ctx));
                } else if starts_with(&t, "totals:") || starts_with(&t, "summary:") {
                } else {
                    self.malformed = true;
                }
            },
        }
    }

    /// Commit the current function at the end of the file and let the costs of the called
    /// functions replace those of the same functions
    fn finish(&mut self, proto: &Costs)
        requires
            old(self).inv(proto.kinds()),
            proto.wf(),
        ensures
            final(self).inv(proto.kinds()),
            final(self).model() == map_finish(old(self).model()),
    {
        if self.malformed {
            return;
        }
        if !self.is_header {
            match &self.curr_fn {
                None => {
                    self.malformed = true;
                    return;
                },
                Some(f) => {
                    let id = Id { obj: copy_opt(&self.curr_obj), file: copy_opt(&self.curr_file), func: owned(f.as_str()) };
                    let costs = self.curr_costs.duplicate();
                    insert_costs(&mut self.fn_totals, id, costs);
                },
            }
        }
        let ghost start = totals_view(self.fn_totals@);
        let ghost pairs = totals_view(self.cfn_totals@);
        let ghost snap = self.model();
        let mut i: usize = 0;
        assert(pairs.take(0) =~= Seq::<(IdView, Seq<u64>)>::empty());
        while i < self.cfn_totals.len()
            invariant
                0 <= i <= self.cfn_totals.len(),
                self.inv(proto.kinds()),
                pairs == totals_view(self.cfn_totals@),
                totals_view(self.fn_totals@) == kv_insert_all(start, pairs.take(i as int)),
                self.model() == (MapState { fn_totals: totals_view(self.fn_totals@), ..snap }),
            decreases self.cfn_totals.len() - i,
        {
            let id = self.cfn_totals[i].0.duplicate();
            let costs = self.cfn_totals[i].1.costs.duplicate();
            assert(pairs[i as int] == (id@, costs.values()));
            insert_costs(&mut self.fn_totals, id, costs);
            assert(pairs.take(i + 1).drop_last() =~= pairs.take(i as int));
            i += 1;
        }
        assert(pairs.take(self.cfn_totals.len() as int) =~= pairs);
    }
}

/// The map from functions to their inclusive costs
#[derive(Debug)]
pub struct CallgrindMap {
    /// The functions with their costs; no function occurs twice
    pub map: Vec<(Id, Value)>,
    /// The sentinel the file was parsed with
    pub sentinel: Option<Sentinel>,
    /// The id of the function the sentinel matched
    pub sentinel_key: Option<Id>,
}

impl CallgrindMap {
    /// Return true if there is no function in the map
    pub fn is_empty(&self) -> (r: bool)
        ensures
            r == (self.map@.len() == 0),
    {
        self.map.len() == 0
    }

    /// The entry of `id`, if there is one
    pub fn get_key_value(&self, id: &Id) -> (r: Option<&(Id, Value)>)
        requires
            kv_distinct(totals_view(self.map@)),
        ensures
            r matches Some(e) ==> e.0@ == id@ && kv_get(totals_view(self.map@), id@) == Some(e.1.costs.values()),
            r is None ==> kv_get(totals_view(self.map@), id@) is None,
    {
        match find_id(&self.map, id) {
            Some(i) => {
                assert(totals_view(self.map@)[i as int] == (self.map@[i as int].0@, self.map@[i as int].1.costs.values()));
                Some(&self.map[i])
            },
            None => None,
        }
    }
}

/// Parse a callgrind output file into a map from functions to their inclusive costs
///
/// This parser is based on `callgrind_annotate` and how it sums up the inclusive costs of the
/// functions.
#[derive(Debug)]
pub struct HashMapParser {
    pub sentinel: Option<Sentinel>,
    pub project_root: String,
}

impl HashMapParser {
    /// The context of the body lines of a file with the header `props`
    pub open spec fn context(&self, props: CallgrindProperties) -> MapContext {
        map_context(
            self.project_root@,
            match self.sentinel {
                Some(s) => Some(s.source()),
                None => None,
            },
            &props.costs_prototype,
            props.positions_prototype@.len() as int,
        )
    }

    /// Parse the body lines `lines[start..]` of a callgrind file with the header `props`.
    ///
    /// A malformed line is an error of the file, and this parser answers it with `None` rather
    /// than stopping the program: a line that is neither blank, a
    /// comment, a `key=value` line of a known key (`ob`, `fl`, `fn`, `fi`, `fe`, `cob`, `cfi`,
    /// `cfl`, `cfn`, `calls`, `jump`, `jcnd`, `jfi`, `jfn`), a cost line nor a `totals:` or
    /// `summary:` line, or a line whose numbers do not parse.
    pub fn try_parse(&self, props: &CallgrindProperties, lines: &Vec<String>, start: usize) -> (r: Option<CallgrindMap>)
        requires
            props.costs_prototype.wf(),
            props.positions_prototype.wf(),
            start <= lines.len(),
        ensures
            ({
                let st = map_result(line_views(lines@).skip(start as int), self.context(*props));
                &&& r is None <==> st.malformed
                &&& r matches Some(m) ==> {
                    &&& totals_view(m.map@) == st.fn_totals
                    &&& kv_distinct(totals_view(m.map@))
                    &&& totals_ok(m.map@, props.costs_prototype.kinds())
                    &&& opt_id(m.sentinel_key) == st.sentinel_key
                    &&& match (m.sentinel, self.sentinel) {
                        (Some(a), Some(b)) => a.source() == b.source(),
                        (None, None) => true,
                        _ => false,
                    }
                }
            }),
    {
        let proto = &props.costs_prototype;
        let npos = props.positions_prototype.len();
        let sentinel: Option<&Sentinel> = match &self.sentinel {
            Some(s) => Some(s),
            None => None,
        };
        let ghost ctx = map_context(self.project_root@, sentinel_source(sentinel), proto, npos as int);
        assert(ctx == self.context(*props));
        let ghost ls = line_views(lines@).skip(start as int);
        let mut p = MapParser {
            curr_obj: None,
            curr_file: None,
            curr_fn: None,
            curr_name: None,
            cfn: None,
            curr_costs: proto.duplicate(),
            cfn_totals: Vec::new(),
            fn_totals: Vec::new(),
            sentinel_key: None,
            is_header: true,
            malformed: false,
        };
        assert(totals_view(p.cfn_totals@) =~= Seq::<(IdView, Seq<u64>)>::empty());
        assert(totals_view(p.fn_totals@) =~= Seq::<(IdView, Seq<u64>)>::empty());
        assert(p.model() == map_start(ctx.proto));
        let mut i: usize = start;
        assert(ls.take(0) =~= Seq::<Seq<char>>::empty());
        while i < lines.len()
            invariant
                start <= i <= lines.len(),
                p.inv(proto.kinds()),
                proto.wf(),
                ctx == map_context(self.project_root@, sentinel_source(sentinel), proto, npos as int),
                ls == line_views(lines@).skip(start as int),
                p.model() == map_fold(map_start(ctx.proto), ls.take(i - start), ctx),
            decreases lines.len() - i,
        {
            p.apply_line(&lines[i], self.project_root.as_str(), sentinel, proto, npos, Ghost(ctx));
            assert(ls.take(i + 1 - start).drop_last() =~= ls.take(i - start));
            assert(ls.take(i + 1 - start).last() == lines@[i as int]@);
            i += 1;
        }
        assert(ls.take(lines.len() - start) =~= ls);
        p.finish(proto);
        if p.malformed {
            return None;
        }
        let sentinel_copy = match &self.sentinel {
            Some(s) => Some(s.duplicate()),
            None => None,
        };
        Some(CallgrindMap { map: p.fn_totals, sentinel: sentinel_copy, sentinel_key: p.sentinel_key })
    }
}

} // verus!
