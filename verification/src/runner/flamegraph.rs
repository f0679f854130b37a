//! Flamegraph stacks built while walking the calls of a callgrind output: each stack is the
//! chain of functions from the entry point with the costs of its last function.
use vstd::prelude::*;

use crate::api::{lemma_display_has_no_slash, Direction, EventKind};
use crate::collections::assoc_get;
use crate::paths::{path_with_extension, with_extension};
use crate::runner::costs::Costs;
use crate::text::{
    append_chars, append_str, decimal, from_chars, owned, split_once, split_once_exec, to_chars,
    u64_to_chars,
};

verus! {

/// An entry of a stack: a function, or an inlined one
#[derive(Debug, Clone)]
pub struct StackEntry {
    is_inline: bool,
    value: String,
}

impl StackEntry {
    /// The text of the entry: the function, in brackets where it is inlined.
    pub closed spec fn text(self) -> Seq<char> {
        if self.is_inline {
            seq!['['] + self.value@ + seq![']']
        } else {
            self.value@
        }
    }

    /// Whether the entry is inlined
    pub closed spec fn inline(self) -> bool {
        self.is_inline
    }

    /// The function of the entry
    pub closed spec fn name(self) -> Seq<char> {
        self.value@
    }

    /// The text of the entry: the function, in brackets where it is inlined
    pub fn to_string(&self) -> (r: String)
        ensures
            r@ == self.text(),
    {
        if self.is_inline {
            let mut c: Vec<char> = Vec::new();
            c.push('[');
            append_str(&mut c, self.value.as_str());
            c.push(']');
            assert(c@ =~= self.text());
            from_chars(&c)
        } else {
            owned(self.value.as_str())
        }
    }

    /// A copy of this entry.
    fn duplicate(&self) -> (r: StackEntry)
        ensures
            r.is_inline == self.is_inline,
            r.value@ == self.value@,
    {
        StackEntry { is_inline: self.is_inline, value: owned(self.value.as_str()) }
    }
}

/// The texts of the entries joined with `;`.
pub open spec fn stack_text(entries: Seq<StackEntry>) -> Seq<char>
    decreases entries.len(),
{
    if entries.len() <= 1 {
        if entries.len() == 0 {
            Seq::empty()
        } else {
            entries[0].text()
        }
    } else {
        stack_text(entries.drop_last()).push(';') + entries.last().text()
    }
}

/// The displayed names of the event kinds, each after `, `.
pub open spec fn kinds_list(kinds: Seq<EventKind>) -> Seq<char>
    decreases kinds.len(),
{
    if kinds.len() == 0 {
        Seq::empty()
    } else {
        kinds_list(kinds.drop_last()) + ", "@ + kinds.last().spec_display()
    }
}

/// A flamegraph stack lacks the event kind
#[derive(Debug, Clone, PartialEq, Eq)]
pub struct StackError {
    /// The missing event kind
    pub event_kind: EventKind,
    /// The event kinds the stack has
    pub present: Vec<EventKind>,
}

impl StackError {
    /// The message of this error
    pub fn message(&self) -> (r: String)
        ensures
            r@ == "Failed creating flamegraph stack: Missing event type '"@ + self.event_kind.spec_display()
                + "'. Possible event types are: '"@ + kinds_list(self.present@) + "'"@,
    {
        let mut c = to_chars("Failed creating flamegraph stack: Missing event type '");
        let name = self.event_kind.to_string();
        append_str(&mut c, name.as_str());
        append_str(&mut c, "'. Possible event types are: '");
        let ghost head = c@;
        let mut i: usize = 0;
        assert(self.present@.take(0) =~= Seq::<EventKind>::empty());
        while i < self.present.len()
            invariant
                0 <= i <= self.present.len(),
                c@ == head + kinds_list(self.present@.take(i as int)),
            decreases self.present.len() - i,
        {
            append_str(&mut c, ", ");
            let e = self.present[i].to_string();
            append_str(&mut c, e.as_str());
            assert(self.present@.take(i + 1).drop_last() =~= self.present@.take(i as int));
            assert(c@ =~= head + kinds_list(self.present@.take(i + 1)));
            i += 1;
        }
        assert(self.present@.take(self.present.len() as int) =~= self.present@);
        append_str(&mut c, "'");
        from_chars(&c)
    }
}

/// A flamegraph stack: the chain of functions and the costs of the last one
#[derive(Debug)]
pub struct Stack {
    pub entries: Vec<StackEntry>,
    pub costs: Costs,
}

impl Stack {
    /// A stack of one function with its costs
    pub fn new(item: &str, costs: Costs, is_inline: bool) -> (r: Stack)
        ensures
            r.entries@.len() == 1,
            r.entries@[0].inline() == is_inline,
            r.entries@[0].name() == item@,
            r.costs == costs,
    {
        Stack { entries: vec![StackEntry { value: owned(item), is_inline }], costs }
    }

    /// Add a function at the end of the stack; the stack takes its costs
    pub fn add(&mut self, item: &str, costs: Costs, is_inline: bool)
        ensures
            final(self).entries@.len() == old(self).entries@.len() + 1,
            final(self).entries@.drop_last() == old(self).entries@,
            final(self).entries@.last().inline() == is_inline,
            final(self).entries@.last().name() == item@,
            final(self).costs == costs,
    {
        self.entries.push(StackEntry { value: owned(item), is_inline });
        self.costs = costs;
        assert(self.entries@.drop_last() =~= old(self).entries@);
    }

    /// Whether an entry of the stack is the function `item`, inlined or not as `is_inline` says
    pub fn contains(&self, item: &str, is_inline: bool) -> (r: bool)
        ensures
            r == exists|i: int|
                0 <= i < self.entries@.len() && (#[trigger] self.entries@[i]).inline() == is_inline
                    && self.entries@[i].name() == item@,
    {
        let it = to_chars(item);
        let mut i: usize = self.entries.len();
        while i > 0
            invariant
                0 <= i <= self.entries.len(),
                it@ == item@,
                forall|j: int|
                    i <= j < self.entries@.len() ==> !((#[trigger] self.entries@[j]).inline() == is_inline
                        && self.entries@[j].name() == item@),
            decreases i,
        {
            let e = &self.entries[i - 1];
            let v = to_chars(e.value.as_str());
            if e.is_inline == is_inline && crate::text::chars_eq(&v, &it) {
                assert(self.entries@[i - 1].inline() == is_inline && self.entries@[i - 1].name() == item@);
                return true;
            }
            i -= 1;
        }
        false
    }

    /// The event kinds of the costs of the stack
    pub fn event_kinds(&self) -> (r: Vec<EventKind>)
        requires
            self.costs.wf(),
        ensures
            r@ == self.costs.kinds(),
    {
        self.costs.event_kinds()
    }

    /// The stack in the folded format of flamegraphs for this event kind: the entries joined
    /// with `;`, a space and the cost; empty for a stack without entries. An error if the costs
    /// lack the event kind.
    pub fn to_string(&self, event_kind: &EventKind) -> (r: Result<String, StackError>)
        requires
            self.costs.wf(),
        ensures
            self.entries@.len() == 0 ==> (r matches Ok(s) && s@.len() == 0),
            self.entries@.len() > 0 ==> match assoc_get(self.costs@, *event_kind) {
                Some(c) => r matches Ok(s) && s@ == stack_text(self.entries@).push(' ') + decimal(c as nat),
                None => r matches Err(e) && e.event_kind == *event_kind && e.present@ == self.costs.kinds(),
            },
    {
        if self.entries.len() == 0 {
            return Ok(String::new());
        }
        let mut c: Vec<char> = Vec::new();
        let first = self.entries[0].to_string();
        append_str(&mut c, first.as_str());
        let mut i: usize = 1;
        assert(self.entries@.take(1) =~= seq![self.entries@[0]]);
        while i < self.entries.len()
            invariant
                1 <= i <= self.entries.len(),
                c@ == stack_text(self.entries@.take(i as int)),
            decreases self.entries.len() - i,
        {
            c.push(';');
            let e = self.entries[i].to_string();
            append_str(&mut c, e.as_str());
            assert(self.entries@.take(i + 1).drop_last() =~= self.entries@.take(i as int));
            assert(c@ =~= stack_text(self.entries@.take(i + 1)));
            i += 1;
        }
        assert(self.entries@.take(self.entries.len() as int) =~= self.entries@);
        match self.costs.cost_by_kind(event_kind) {
            Some(cost) => {
                c.push(' ');
                let d = u64_to_chars(cost);
                append_chars(&mut c, &d);
                Ok(from_chars(&c))
            },
            None => Err(StackError { event_kind: *event_kind, present: self.costs.event_kinds() }),
        }
    }

    /// A copy of this stack.
    pub fn duplicate(&self) -> (r: Stack)
        ensures
            r.entries@.len() == self.entries@.len(),
            forall|i: int| 0 <= i < self.entries@.len() ==> (#[trigger] r.entries@[i]).inline() == self.entries@[i].inline()
                && r.entries@[i].name() == self.entries@[i].name(),
            r.costs@ == self.costs@,
            r.costs.wf() == self.costs.wf(),
    {
        let mut entries: Vec<StackEntry> = Vec::new();
        let mut i: usize = 0;
        while i < self.entries.len()
            invariant
                0 <= i <= self.entries.len(),
                entries.len() == i,
                forall|j: int| 0 <= j < i ==> (#[trigger] entries@[j]).inline() == self.entries@[j].inline()
                    && entries@[j].name() == self.entries@[j].name(),
            decreases self.entries.len() - i,
        {
            entries.push(self.entries[i].duplicate());
            i += 1;
        }
        Stack { entries, costs: self.costs.duplicate() }
    }
}

/// The stacks of a flamegraph
#[derive(Debug)]
pub struct Stacks(pub Vec<Stack>);

impl Stacks {
    /// Return true if there is no stack
    pub fn is_empty(&self) -> (r: bool)
        ensures
            r == (self.0@.len() == 0),
    {
        self.0.len() == 0
    }

    /// Append a stack
    pub fn push(&mut self, value: Stack)
        ensures
            final(self).0@ == old(self).0@.push(value),
    {
        self.0.push(value);
    }

    /// Append a stack: `base` with the function added, or the function alone where there is
    /// no base
    pub fn add(&mut self, item: &str, costs: Costs, is_inline: bool, base: Option<&Stack>)
        ensures
            final(self).0@.len() == old(self).0@.len() + 1,
            final(self).0@.drop_last() == old(self).0@,
            final(self).0@.last().costs == costs,
            final(self).0@.last().entries@.last().inline() == is_inline,
            final(self).0@.last().entries@.last().name() == item@,
            match base {
                Some(b) => final(self).0@.last().entries@.len() == b.entries@.len() + 1 && forall|i: int|
                    0 <= i < b.entries@.len() ==> (#[trigger] final(self).0@.last().entries@[i]).inline()
                        == b.entries@[i].inline() && final(self).0@.last().entries@[i].name() == b.entries@[i].name(),
                None => final(self).0@.last().entries@.len() == 1,
            },
    {
        let stack = match base {
            Some(last) => {
                let mut stack = last.duplicate();
                let ghost before = stack.entries@;
                stack.add(item, costs, is_inline);
                assert forall|i: int| 0 <= i < last.entries@.len() implies (#[trigger] stack.entries@[i]).inline()
                    == last.entries@[i].inline() && stack.entries@[i].name() == last.entries@[i].name() by {
                    assert(stack.entries@[i] == stack.entries@.drop_last()[i]);
                    assert(before[i].inline() == last.entries@[i].inline());
                }
                stack
            },
            None => Stack::new(item, costs, is_inline),
        };
        self.0.push(stack);
        assert(self.0@.drop_last() =~= old(self).0@);
    }

    /// The last stack
    pub fn last(&self) -> (r: Option<&Stack>)
        ensures
            self.0@.len() == 0 ==> r is None,
            self.0@.len() > 0 ==> r == Some(&self.0@.last()),
    {
        if self.0.len() == 0 {
            None
        } else {
            Some(&self.0[self.0.len() - 1])
        }
    }

    /// The stacks in the folded format of flamegraphs for this event kind; an error if a stack
    /// lacks the event kind.
    pub fn encode(&self, event_kind: &EventKind) -> (r: Result<Vec<String>, StackError>)
        requires
            forall|i: int| 0 <= i < self.0@.len() ==> (#[trigger] self.0@[i]).costs.wf(),
        ensures
            r is Err <==> exists|i: int|
                0 <= i < self.0@.len() && (#[trigger] self.0@[i]).entries@.len() > 0 && assoc_get(
                    self.0@[i].costs@,
                    *event_kind,
                ) is None,
            r matches Ok(v) ==> v@.len() == self.0@.len() && forall|i: int|
                0 <= i < self.0@.len() ==> (#[trigger] v@[i])@ == stack_line_of(self.0@[i], *event_kind),
            r matches Err(e) ==> e.event_kind == *event_kind && exists|i: int|
                0 <= i < self.0@.len() && (#[trigger] self.0@[i]).entries@.len() > 0 && assoc_get(
                    self.0@[i].costs@,
                    *event_kind,
                ) is None && e.present@ == self.0@[i].costs.kinds() && forall|j: int|
                    0 <= j < i ==> !((#[trigger] self.0@[j]).entries@.len() > 0 && assoc_get(
                        self.0@[j].costs@,
                        *event_kind,
                    ) is None),
    {
        let mut out: Vec<String> = Vec::new();
        let mut i: usize = 0;
        while i < self.0.len()
            invariant
                0 <= i <= self.0.len(),
                forall|j: int| 0 <= j < self.0@.len() ==> (#[trigger] self.0@[j]).costs.wf(),
                out.len() == i,
                forall|j: int| 0 <= j < i ==> (#[trigger] out@[j])@ == stack_line_of(self.0@[j], *event_kind),
                forall|j: int|
                    0 <= j < i ==> !((#[trigger] self.0@[j]).entries@.len() > 0 && assoc_get(self.0@[j].costs@, *event_kind) is None),
            decreases self.0.len() - i,
        {
            assert(self.0@[i as int].costs.wf());
            match self.0[i].to_string(event_kind) {
                Ok(s) => {
                    out.push(s);
                },
                Err(e) => {
                    return Err(e);
                },
            }
            i += 1;
        }
        Ok(out)
    }
}

/// The folded stack of a stack for an event kind that it has; empty without entries.
pub open spec fn stack_line_of(s: Stack, kind: EventKind) -> Seq<char> {
    if s.entries@.len() == 0 {
        Seq::empty()
    } else {
        stack_text(s.entries@).push(' ') + decimal(assoc_get(s.costs@, kind).unwrap() as nat)
    }
}

/// The file of a flamegraph
#[derive(Debug)]
pub struct Output(pub String);

impl Output {
    /// The file of the flamegraph of an event kind for a callgrind output file: its extension
    /// replaced by `<event kind>.svg`
    pub fn for_event_kind(path: &str, event_kind: &EventKind) -> (r: Output)
        ensures
            r.0@ == path_with_extension(path@, event_kind.spec_display() + ".svg"@),
    {
        let name = event_kind.to_string();
        let mut c = to_chars(name.as_str());
        append_str(&mut c, ".svg");
        let ext = from_chars(&c);
        proof {
            lemma_display_has_no_slash(*event_kind);
            reveal_strlit(".svg");
            let d = event_kind.spec_display();
            assert(".svg"@ =~= seq!['.', 's', 'v', 'g']);
            assert forall|i: int| 0 <= i < ext@.len() implies ext@[i] != '/' by {
                if i < d.len() {
                    assert(ext@[i] == d[i]);
                    assert(!d.contains('/'));
                } else {
                    assert(ext@[i] == ".svg"@[i - d.len()]);
                }
            }
        }
        Output(with_extension(path, ext.as_str()))
    }

    /// The file of the differential flamegraph of this one: the extension `diff.svg`
    pub fn to_diff_output(&self) -> (r: Output)
        ensures
            r.0@ == path_with_extension(self.0@, "diff.svg"@),
    {
        proof {
            reveal_strlit("diff.svg");
            assert("diff.svg"@ =~= seq!['d', 'i', 'f', 'f', '.', 's', 'v', 'g']);
        }
        Output(with_extension(self.0.as_str(), "diff.svg"))
    }
}

/// The settings of a flamegraph
#[derive(Debug)]
pub struct Config {
    pub title: String,
    pub subtitle: String,
    /// Event kinds that the stacks lack are skipped rather than failing
    pub ignore_missing: bool,
    pub direction: Direction,
    /// A differential flamegraph against the previous run is made too
    pub differential: bool,
}

/// The flamegraphs of a callgrind run: one per event kind
#[derive(Debug)]
pub struct Flamegraph {
    pub config: Config,
    pub event_kinds: Vec<EventKind>,
    pub stacks: Stacks,
}

/// The title and subtitle of a flamegraph: those given, the heading in place of a missing one,
/// or the heading split at its first space where neither is given.
pub open spec fn titles(
    heading: Seq<char>,
    title: Option<Seq<char>>,
    subtitle: Option<Seq<char>>,
) -> (Seq<char>, Seq<char>) {
    match (title, subtitle) {
        (None, None) => split_once(heading, ' ').unwrap(),
        (None, Some(s)) => (heading, s),
        (Some(t), None) => (t, heading),
        (Some(t), Some(s)) => (t, s),
    }
}

/// The view of an optional string.
pub open spec fn opt_text(s: Option<String>) -> Option<Seq<char>> {
    match s {
        Some(x) => Some(x@),
        None => None,
    }
}

/// The stacks all have well-formed costs.
pub open spec fn stacks_wf(stacks: Seq<Stack>) -> bool {
    forall|i: int| 0 <= i < stacks.len() ==> (#[trigger] stacks[i]).costs.wf()
}

/// The stacks can be written for the event kind: no stack with entries lacks it.
pub open spec fn encodes(stacks: Seq<Stack>, kind: EventKind) -> bool {
    forall|i: int|
        0 <= i < stacks.len() ==> !((#[trigger] stacks[i]).entries@.len() > 0 && assoc_get(
            stacks[i].costs@,
            kind,
        ) is None)
}

/// The folded lines of the stacks for an event kind.
pub open spec fn lines_of(stacks: Seq<Stack>, kind: EventKind) -> Seq<Seq<char>> {
    Seq::new(stacks.len(), |i: int| stack_line_of(stacks[i], kind))
}

/// A flamegraph to write: the event kind, the folded lines of the stacks and, for a
/// differential flamegraph, the folded lines of the previous run.
#[derive(Debug)]
pub struct FlamegraphLines {
    pub event_kind: EventKind,
    pub lines: Vec<String>,
    pub old_lines: Option<Vec<String>>,
}

/// The view of a flamegraph to write.
pub open spec fn lines_view(f: FlamegraphLines) -> (EventKind, Seq<Seq<char>>, Option<Seq<Seq<char>>>) {
    (f.event_kind, f.lines@.map_values(|l: String| l@), match f.old_lines {
        Some(o) => Some(o@.map_values(|l: String| l@)),
        None => None,
    })
}

/// The flamegraphs to write for the event kinds, one after the other, and the event kind that
/// stops them, if one does: a lacking event kind is skipped where missing ones are ignored,
/// else it stops all that follow. For the previous run's stacks the same holds, except that
/// the flamegraph of the new run is kept.
pub open spec fn plan_fold(
    kinds: Seq<EventKind>,
    stacks: Seq<Stack>,
    old: Option<Seq<Stack>>,
    ignore_missing: bool,
) -> (Seq<(EventKind, Seq<Seq<char>>, Option<Seq<Seq<char>>>)>, Option<EventKind>)
    decreases kinds.len(),
{
    if kinds.len() == 0 {
        (Seq::empty(), None)
    } else {
        let (done, failed) = plan_fold(kinds.drop_last(), stacks, old, ignore_missing);
        let k = kinds.last();
        if failed is Some {
            (done, failed)
        } else if !encodes(stacks, k) {
            (done, if ignore_missing { None } else { Some(k) })
        } else {
            match old {
                None => (done.push((k, lines_of(stacks, k), None)), None),
                Some(o) => if encodes(o, k) {
                    (done.push((k, lines_of(stacks, k), Some(lines_of(o, k)))), None)
                } else {
                    (done.push((k, lines_of(stacks, k), None)), if ignore_missing { None } else { Some(k) })
                },
            }
        }
    }
}

/// Once an event kind stops the flamegraphs, those that follow change nothing.
proof fn lemma_plan_fold_stops(
    kinds: Seq<EventKind>,
    stacks: Seq<Stack>,
    old: Option<Seq<Stack>>,
    ignore_missing: bool,
    j: int,
)
    requires
        0 <= j <= kinds.len(),
        plan_fold(kinds.take(j), stacks, old, ignore_missing).1 is Some,
    ensures
        plan_fold(kinds, stacks, old, ignore_missing) == plan_fold(
            kinds.take(j),
            stacks,
            old,
            ignore_missing,
        ),
    decreases kinds.len(),
{
    if j == kinds.len() {
        assert(kinds.take(j) =~= kinds);
    } else {
        let rest = kinds.drop_last();
        assert(rest.take(j) =~= kinds.take(j));
        lemma_plan_fold_stops(rest, stacks, old, ignore_missing, j);
    }
}

impl Flamegraph {
    /// A new flamegraph of the stacks: its title and subtitle are those given, the heading in
    /// place of a missing one, or the heading split at its first space where neither is given
    /// (the heading then holds a space).
    pub fn new(
        heading: String,
        stacks: Stacks,
        title: Option<String>,
        subtitle: Option<String>,
        event_kinds: Vec<EventKind>,
        ignore_missing: bool,
        direction: Direction,
        differential: bool,
    ) -> (r: Flamegraph)
        requires
            title is None && subtitle is None ==> split_once(heading@, ' ') is Some,
        ensures
            (r.config.title@, r.config.subtitle@) == titles(heading@, opt_text(title), opt_text(subtitle)),
            r.config.ignore_missing == ignore_missing,
            r.config.direction == direction,
            r.config.differential == differential,
            r.event_kinds == event_kinds,
            r.stacks == stacks,
    {
        let (title, subtitle) = match (title, subtitle) {
            (None, None) => {
                let h = to_chars(heading.as_str());
                match split_once_exec(&h, ' ') {
                    Some((a, b)) => (from_chars(&a), from_chars(&b)),
                    None => (owned(heading.as_str()), String::new()),
                }
            },
            (None, Some(s)) => (heading, s),
            (Some(t), None) => (t, heading),
            (Some(t), Some(s)) => (t, s),
        };
        Flamegraph {
            config: Config { title, subtitle, ignore_missing, direction, differential },
            event_kinds,
            stacks,
        }
    }

    /// The flamegraphs to write, one per event kind in order, with the folded lines of the
    /// previous run's stacks where a differential flamegraph is made and those are given; and
    /// the error that stops the rest, if an event kind is missing and missing ones are not
    /// ignored. Without stacks there is nothing to write.
    pub fn lines(&self, old_stacks: Option<&Stacks>) -> (r: (Vec<FlamegraphLines>, Option<StackError>))
        requires
            stacks_wf(self.stacks.0@),
            old_stacks matches Some(o) ==> stacks_wf(o.0@),
        ensures
            self.stacks.0@.len() == 0 ==> r.0@.len() == 0 && r.1 is None,
            self.stacks.0@.len() > 0 ==> {
                let old = match old_stacks {
                    Some(o) => if self.config.differential { Some(o.0@) } else { None },
                    None => None,
                };
                let (done, failed) = plan_fold(
                    self.event_kinds@,
                    self.stacks.0@,
                    old,
                    self.config.ignore_missing,
                );
                &&& r.0@.map_values(|f: FlamegraphLines| lines_view(f)) == done
                &&& (r.1 is Some <==> failed is Some)
                &&& r.1 matches Some(e) ==> failed == Some(e.event_kind)
            },
    {
        let mut out: Vec<FlamegraphLines> = Vec::new();
        if self.stacks.is_empty() {
            return (out, None);
        }
        let old: Option<&Stacks> = if self.config.differential { old_stacks } else { None };
        let ghost old_view: Option<Seq<Stack>> = match old {
            Some(o) => Some(o.0@),
            None => None,
        };
        let ghost kinds = self.event_kinds@;
        let mut i: usize = 0;
        assert(kinds.take(0) =~= Seq::<EventKind>::empty());
        while i < self.event_kinds.len()
            invariant
                i <= self.event_kinds.len(),
                kinds == self.event_kinds@,
                stacks_wf(self.stacks.0@),
                old matches Some(o) ==> stacks_wf(o.0@),
                old_view == match old {
                    Some(o) => Some(o.0@),
                    None => None::<Seq<Stack>>,
                },
                old_view == match old_stacks {
                    Some(o) => if self.config.differential { Some(o.0@) } else { None },
                    None => None::<Seq<Stack>>,
                },
                self.stacks.0@.len() > 0,
                plan_fold(kinds.take(i as int), self.stacks.0@, old_view, self.config.ignore_missing)
                    == (out@.map_values(|f: FlamegraphLines| lines_view(f)), None::<EventKind>),
            decreases self.event_kinds.len() - i,
        {
            let kind = self.event_kinds[i];
            assert(kinds.take(i + 1).drop_last() =~= kinds.take(i as int));
            assert(kinds.take(i + 1).last() == kind);
            let ghost before = out@;
            match self.stacks.encode(&kind) {
                Err(e) => {
                    if !self.config.ignore_missing {
                        proof {
                            lemma_plan_fold_stops(kinds, self.stacks.0@, old_view, false, i + 1);
                        }
                        return (out, Some(e));
                    }
                },
                Ok(lines) => {
                    assert(lines@.map_values(|l: String| l@) =~= lines_of(self.stacks.0@, kind));
                    match old {
                        None => {
                            out.push(FlamegraphLines { event_kind: kind, lines, old_lines: None });
                        },
                        Some(o) => match o.encode(&kind) {
                            Err(e) => {
                                out.push(FlamegraphLines { event_kind: kind, lines, old_lines: None });
                                assert(out@.map_values(|f: FlamegraphLines| lines_view(f)) =~= before.map_values(
                                    |f: FlamegraphLines| lines_view(f),
                                ).push((kind, lines_of(self.stacks.0@, kind), None)));
                                if !self.config.ignore_missing {
                                    proof {
                                        lemma_plan_fold_stops(kinds, self.stacks.0@, old_view, false, i + 1);
                                    }
                                    return (out, Some(e));
                                }
                            },
                            Ok(old_lines) => {
                                assert(old_lines@.map_values(|l: String| l@) =~= lines_of(o.0@, kind));
                                out.push(
                                    FlamegraphLines { event_kind: kind, lines, old_lines: Some(old_lines) },
                                );
                            },
                        },
                    }
                    assert(out@.map_values(|f: FlamegraphLines| lines_view(f)) =~= before.map_values(
                        |f: FlamegraphLines| lines_view(f),
                    ).push(lines_view(out@.last())));
                },
            }
            i += 1;
        }
        assert(kinds.take(i as int) =~= kinds);
        (out, None)
    }
}

} // verus!
