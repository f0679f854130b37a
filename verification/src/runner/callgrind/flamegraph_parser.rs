//! The flamegraph map: the inclusive costs of the functions of a callgrind output file, and
//! their stacks in the folded format that flamegraphs are drawn from.
use vstd::prelude::*;
use vstd::relations::sorted_by;

use crate::api::EventKind;
use crate::callgrind::line_views;
use crate::collections::{kv_distinct, kv_get, kv_position, lemma_kv_position};
use crate::ordering::{item_le, item_order, items_view, lemma_item_order_total, sort_items, StackItem};
use crate::runner::callgrind::cache::{cost_of, summarizable, summarized};
use crate::runner::costs::{add_values, values_addable, Costs, CostsError};
use crate::runner::callgrind::hashmap_parser::{find_id, totals_view, CallgrindMap, Id, IdView, Value};
use crate::text::{append_chars, append_str, decimal, from_chars, u64_to_chars};

verus! {

/// The view of the entries of a map: the ids with their costs by event kind.
pub open spec fn costs_view(m: Seq<(Id, Value)>) -> Seq<(IdView, Seq<(EventKind, u64)>)> {
    m.map_values(|e: (Id, Value)| (e.0@, e.1.costs@))
}

/// The name of a function in a stack: `file:function` or `function`, followed by ` [object]`
/// where the object file is known.
pub open spec fn id_source(id: IdView) -> Seq<char> {
    let base = match id.1 {
        Some(f) => f.push(':') + id.2,
        None => id.2,
    };
    match id.0 {
        Some(o) => base + seq![' ', '['] + o.push(']'),
        None => base,
    }
}

/// The cost of an entry for `kind`, 0 where it has none.
pub open spec fn entry_cost(costs: Seq<(EventKind, u64)>, kind: EventKind) -> u64 {
    match cost_of(costs, kind) {
        Some(c) => c,
        None => 0,
    }
}

/// The stack entries of a flamegraph in the order of the map: each function with its cost,
/// without those that cost more than the limit (the cost of the sentinel).
pub open spec fn stack_items(
    entries: Seq<(IdView, Seq<(EventKind, u64)>)>,
    kind: EventKind,
    limit: Option<u64>,
) -> Seq<StackItem>
    decreases entries.len(),
{
    if entries.len() == 0 {
        Seq::empty()
    } else {
        let rest = stack_items(entries.drop_last(), kind, limit);
        let e = entries.last();
        let c = entry_cost(e.1, kind);
        if limit matches Some(l) && c > l {
            rest
        } else {
            rest.push((id_source(e.0), c))
        }
    }
}

/// The names of the stack entries `0..=k` joined by `;`.
pub open spec fn stack_prefix(items: Seq<StackItem>, k: int) -> Seq<char>
    decreases k,
{
    if k <= 0 {
        items[0].0
    } else {
        stack_prefix(items, k - 1).push(';') + items[k].0
    }
}

/// The stack line `k`: the stack up to entry `k`, a space, and the cost of entry `k` less the
/// cost of the next entry (the full cost for the last entry).
pub open spec fn stack_line(items: Seq<StackItem>, k: int) -> Seq<char> {
    let cost: int = if k + 1 < items.len() {
        items[k].1 - items[k + 1].1
    } else {
        items[k].1 as int
    };
    stack_prefix(items, k).push(' ') + decimal(cost as nat)
}

/// The stack lines of the sorted stack entries.
pub open spec fn stack_lines(items: Seq<StackItem>) -> Seq<Seq<char>> {
    Seq::new(items.len(), |k: int| stack_line(items, k))
}

/// The keys of the entries are those of the totals.
proof fn lemma_same_keys(m: Seq<(Id, Value)>)
    requires
        kv_distinct(totals_view(m)),
    ensures
        kv_distinct(costs_view(m)),
{
    assert forall|i: int, j: int| 0 <= i < m.len() && 0 <= j < m.len() && i != j implies costs_view(m)[i].0
        != costs_view(m)[j].0 by {
        assert(totals_view(m)[i].0 != totals_view(m)[j].0);
    }
}

/// The counts of costs in order.
pub open spec fn cost_values(c: Seq<(EventKind, u64)>) -> Seq<u64> {
    c.map_values(|e: (EventKind, u64)| e.1)
}

/// The sum of two costs, position by position; where `b` is shorter, `a` keeps its counts.
pub open spec fn add_costs(a: Seq<(EventKind, u64)>, b: Seq<(EventKind, u64)>) -> Seq<(EventKind, u64)> {
    Seq::new(
        a.len(),
        |j: int|
            (
                a[j].0,
                if j < b.len() {
                    (a[j].1 + b[j].1) as u64
                } else {
                    a[j].1
                },
            ),
    )
}

/// The entry of function `k` with costs `c` added to a map: to the costs of `k` where it is
/// present, as a new entry at the end where not.
pub open spec fn merge_entry(
    s: Seq<(IdView, Seq<(EventKind, u64)>)>,
    k: IdView,
    c: Seq<(EventKind, u64)>,
) -> Seq<(IdView, Seq<(EventKind, u64)>)> {
    match kv_position(s, k) {
        Some(i) => s.update(i, (k, add_costs(s[i].1, c))),
        None => s.push((k, c)),
    }
}

/// The entries of `pairs` added to a map one after the other.
pub open spec fn merge_all(
    s: Seq<(IdView, Seq<(EventKind, u64)>)>,
    pairs: Seq<(IdView, Seq<(EventKind, u64)>)>,
) -> Seq<(IdView, Seq<(EventKind, u64)>)>
    decreases pairs.len(),
{
    if pairs.len() == 0 {
        s
    } else {
        merge_entry(merge_all(s, pairs.drop_last()), pairs.last().0, pairs.last().1)
    }
}

/// The entries of the first map with those of the others added, one map after the other.
pub open spec fn total_entries(
    first: Seq<(IdView, Seq<(EventKind, u64)>)>,
    rest: Seq<Seq<(IdView, Seq<(EventKind, u64)>)>>,
) -> Seq<(IdView, Seq<(EventKind, u64)>)>
    decreases rest.len(),
{
    if rest.len() == 0 {
        first
    } else {
        merge_all(total_entries(first, rest.drop_last()), rest.last())
    }
}

/// Each map's costs can be added to the sum of the maps before it without overflow.
pub open spec fn totals_addable(
    first: Seq<(IdView, Seq<(EventKind, u64)>)>,
    rest: Seq<Seq<(IdView, Seq<(EventKind, u64)>)>>,
) -> bool
    decreases rest.len(),
{
    rest.len() == 0 || (totals_addable(first, rest.drop_last()) && costs_addable(
        total_entries(first, rest.drop_last()),
        rest.last(),
    ))
}

/// The entries of the maps.
pub open spec fn maps_entries(maps: Seq<FlamegraphMap>) -> Seq<Seq<(IdView, Seq<(EventKind, u64)>)>> {
    maps.map_values(|m: FlamegraphMap| m.entries())
}

/// The sum of the flamegraph maps of the parts of a benchmark run: `None` if there is none,
/// else the first with the costs of the others added.
pub fn total_flamegraph_map_from_parsed(maps: &Vec<FlamegraphMap>) -> (r: Option<FlamegraphMap>)
    requires
        forall|i: int| 0 <= i < maps.len() ==> (#[trigger] maps@[i]).wf(),
        maps.len() > 0 ==> totals_addable(maps@[0].entries(), maps_entries(maps@).drop_first()),
    ensures
        r is None <==> maps.len() == 0,
        r matches Some(t) ==> t.wf() && t.entries() == total_entries(
            maps@[0].entries(),
            maps_entries(maps@).drop_first(),
        ),
{
    if maps.len() == 0 {
        return None;
    }
    assert(maps@[0].wf());
    let mut total = maps[0].duplicate();
    let ghost first = maps@[0].entries();
    let ghost rest = maps_entries(maps@).drop_first();
    let mut i: usize = 1;
    assert(rest.take(0) =~= Seq::<Seq<(IdView, Seq<(EventKind, u64)>)>>::empty());
    while i < maps.len()
        invariant
            1 <= i <= maps.len(),
            forall|j: int| 0 <= j < maps.len() ==> (#[trigger] maps@[j]).wf(),
            first == maps@[0].entries(),
            rest == maps_entries(maps@).drop_first(),
            totals_addable(first, rest),
            total.wf(),
            total.entries() == total_entries(first, rest.take(i - 1)),
        decreases maps.len() - i,
    {
        assert(rest.take(i as int).drop_last() =~= rest.take(i - 1));
        assert(rest.take(i as int).last() == maps@[i as int].entries());
        proof {
            lemma_totals_addable_prefix(first, rest, i as int);
        }
        assert(maps@[i as int].wf());
        total.add(&maps[i]);
        i += 1;
    }
    assert(rest.take(maps.len() - 1) =~= rest);
    Some(total)
}

/// The maps of a prefix can be added where all can.
proof fn lemma_totals_addable_prefix(
    first: Seq<(IdView, Seq<(EventKind, u64)>)>,
    rest: Seq<Seq<(IdView, Seq<(EventKind, u64)>)>>,
    k: int,
)
    requires
        0 <= k <= rest.len(),
        totals_addable(first, rest),
    ensures
        totals_addable(first, rest.take(k)),
    decreases rest.len() - k,
{
    if k < rest.len() {
        lemma_totals_addable_prefix(first, rest, k + 1);
        assert(rest.take(k + 1).drop_last() =~= rest.take(k));
    } else {
        assert(rest.take(k) =~= rest);
    }
}

/// The costs of the functions that two maps share can be added without overflow.
pub open spec fn costs_addable(
    a: Seq<(IdView, Seq<(EventKind, u64)>)>,
    b: Seq<(IdView, Seq<(EventKind, u64)>)>,
) -> bool {
    forall|i: int, j: int|
        0 <= i < a.len() && 0 <= j < b.len() && #[trigger] a[i].0 == #[trigger] b[j].0 ==> values_addable(
            cost_values(a[i].1),
            cost_values(b[j].1),
        )
}

/// The entries are well formed: no function twice and well formed costs.
pub open spec fn entries_wf(m: Seq<(Id, Value)>) -> bool {
    &&& kv_distinct(totals_view(m))
    &&& forall|i: int| 0 <= i < m.len() ==> (#[trigger] m[i]).1.costs.wf()
}

/// Replacing the costs of an entry keeps the entries well formed.
proof fn lemma_set_entry(before: Seq<(Id, Value)>, i: int, e: (Id, Value))
    requires
        entries_wf(before),
        0 <= i < before.len(),
        e.0@ == before[i].0@,
        e.1.costs.wf(),
    ensures
        entries_wf(before.update(i, e)),
        costs_view(before.update(i, e)) == costs_view(before).update(i, (before[i].0@, e.1.costs@)),
{
    let after = before.update(i, e);
    assert(totals_view(after) =~= totals_view(before).update(i, (before[i].0@, e.1.costs.values())));
    assert forall|a: int, b: int| 0 <= a < after.len() && 0 <= b < after.len() && a != b implies totals_view(after)[a].0
        != totals_view(after)[b].0 by {
        assert(totals_view(before)[a].0 != totals_view(before)[b].0);
    }
    assert forall|x: int| 0 <= x < after.len() implies (#[trigger] after[x]).1.costs.wf() by {
        if x != i {
            assert(before[x].1.costs.wf());
        }
    }
    assert(costs_view(after) =~= costs_view(before).update(i, (before[i].0@, e.1.costs@)));
}

/// Appending an entry of a new function keeps the entries well formed.
proof fn lemma_push_entry(before: Seq<(Id, Value)>, e: (Id, Value))
    requires
        entries_wf(before),
        kv_position(totals_view(before), e.0@) is None,
        e.1.costs.wf(),
    ensures
        entries_wf(before.push(e)),
        costs_view(before.push(e)) == costs_view(before).push((e.0@, e.1.costs@)),
{
    let after = before.push(e);
    lemma_kv_position(totals_view(before), e.0@);
    assert(totals_view(after) =~= totals_view(before).push((e.0@, e.1.costs.values())));
    assert forall|a: int, b: int| 0 <= a < after.len() && 0 <= b < after.len() && a != b implies totals_view(after)[a].0
        != totals_view(after)[b].0 by {
        if a < before.len() && b < before.len() {
            assert(totals_view(before)[a].0 != totals_view(before)[b].0);
        } else if a < before.len() {
            assert(totals_view(before)[a].0 != e.0@);
        } else if b < before.len() {
            assert(totals_view(before)[b].0 != e.0@);
        }
    }
    assert forall|x: int| 0 <= x < after.len() implies (#[trigger] after[x]).1.costs.wf() by {
        if x < before.len() {
            assert(before[x].1.costs.wf());
        }
    }
    assert(costs_view(after) =~= costs_view(before).push((e.0@, e.1.costs@)));
}

/// Costs with the kinds of `a` and the sums of the counts of `a` and `b` are their sum.
proof fn lemma_added_view(c: Costs, a: Costs, b: Costs)
    requires
        c.kinds() == a.kinds(),
        c.values() == add_values(a.values(), b.values()),
    ensures
        c@ == add_costs(a@, b@),
{
    assert(c@.len() == c.kinds().len());
    assert(a@.len() == a.kinds().len());
    assert(b@.len() == b.values().len());
    assert forall|x: int| 0 <= x < c@.len() implies c@[x] == add_costs(a@, b@)[x] by {
        assert(c.kinds()[x] == c@[x].0);
        assert(c.values()[x] == c@[x].1);
        assert(a.kinds()[x] == a@[x].0);
        assert(a.values()[x] == a@[x].1);
        if x < b@.len() {
            assert(b.values()[x] == b@[x].1);
        }
    }
    assert(c@ =~= add_costs(a@, b@));
}

/// The name of a function in a stack.
fn source_of(id: &Id) -> (r: Vec<char>)
    ensures
        r@ == id_source(id@),
{
    let mut s: Vec<char> = Vec::new();
    match &id.file {
        Some(f) => {
            append_str(&mut s, f.as_str());
            s.push(':');
            append_str(&mut s, id.func.as_str());
        },
        None => {
            append_str(&mut s, id.func.as_str());
        },
    }
    match &id.obj {
        Some(o) => {
            s.push(' ');
            s.push('[');
            append_str(&mut s, o.as_str());
            s.push(']');
        },
        None => {},
    }
    assert(s@ =~= id_source(id@));
    s
}

/// Why the stacks of a flamegraph could not be made
#[derive(Debug, Clone, Copy, PartialEq, Eq)]
pub enum FlamegraphError {
    /// A function has no cost of this event kind
    MissingEventKind(EventKind),
    /// The cache summary of a function could not be calculated
    Summary(CostsError),
}

impl FlamegraphError {
    /// The message of this error
    pub fn message(&self) -> (r: String)
        ensures
            match self {
                FlamegraphError::MissingEventKind(k) => r@ == "Failed creating flamegraph stack: Missing event type '"@
                    + k.spec_display() + "'"@,
                FlamegraphError::Summary(CostsError::MissingEventKind(k)) => r@
                    == "Failed calculating summary events: "@ + ("Missing event type '"@ + k.spec_display() + "'"@),
            },
    {
        match self {
            FlamegraphError::MissingEventKind(k) => {
                let mut c = crate::text::to_chars("Failed creating flamegraph stack: Missing event type '");
                let name = k.to_string();
                append_str(&mut c, name.as_str());
                append_str(&mut c, "'");
                from_chars(&c)
            },
            FlamegraphError::Summary(e) => {
                let mut c = crate::text::to_chars("Failed calculating summary events: ");
                let inner = e.message();
                append_str(&mut c, inner.as_str());
                from_chars(&c)
            },
        }
    }
}

/// The map of a callgrind output file from functions to their inclusive costs, for flamegraphs
#[derive(Debug)]
pub struct FlamegraphMap(pub CallgrindMap);

impl FlamegraphMap {
    /// No function occurs twice and all costs are well formed.
    pub open spec fn wf(self) -> bool {
        entries_wf(self.0.map@)
    }

    /// The functions with their costs.
    pub open spec fn entries(self) -> Seq<(IdView, Seq<(EventKind, u64)>)> {
        costs_view(self.0.map@)
    }

    /// The sentinel's function is in the map, where a sentinel was found.
    pub open spec fn sentinel_present(self) -> bool {
        self.0.sentinel_key matches Some(k) ==> kv_position(totals_view(self.0.map@), k@) is Some
    }

    /// The cost of the sentinel's function, where there is one: the functions that cost more
    /// are left out of the stacks.
    pub open spec fn sentinel_limit(self, kind: EventKind) -> Option<u64> {
        match self.0.sentinel_key {
            Some(k) => match kv_get(self.entries(), k@) {
                Some(c) => cost_of(c, kind),
                None => None,
            },
            None => None,
        }
    }

    /// A copy of this map: the same functions with the same costs, sentinel and sentinel key
    pub fn duplicate(&self) -> (r: FlamegraphMap)
        requires
            self.wf(),
        ensures
            r.wf(),
            r.entries() == self.entries(),
            r.0.sentinel_key matches Some(k) ==> self.0.sentinel_key matches Some(j) && k@ == j@,
            r.0.sentinel_key is None ==> self.0.sentinel_key is None,
    {
        let m = &self.0.map;
        let mut out: Vec<(Id, Value)> = Vec::new();
        let mut i: usize = 0;
        while i < m.len()
            invariant
                0 <= i <= m.len(),
                entries_wf(m@),
                entries_wf(out@),
                out.len() == i,
                costs_view(out@) == costs_view(m@).take(i as int),
                totals_view(out@) == totals_view(m@).take(i as int),
            decreases m.len() - i,
        {
            let ghost before = out@;
            assert(m@[i as int].1.costs.wf());
            let id = m[i].0.duplicate();
            let costs = m[i].1.costs.duplicate();
            out.push((id, Value { costs }));
            proof {
                assert forall|x: int| 0 <= x < i + 1 implies costs_view(out@)[x] == costs_view(m@).take(i + 1)[x] && totals_view(out@)[x]
                    == totals_view(m@).take(i + 1)[x] by {
                    if x < i {
                        assert(out@[x] == before[x]);
                        assert(costs_view(before)[x] == costs_view(m@).take(i as int)[x]);
                        assert(totals_view(before)[x] == totals_view(m@).take(i as int)[x]);
                    }
                }
                assert(costs_view(out@) =~= costs_view(m@).take(i + 1));
                assert(totals_view(out@) =~= totals_view(m@).take(i + 1));
                assert forall|a: int, b: int| 0 <= a < out@.len() && 0 <= b < out@.len() && a != b implies totals_view(out@)[a].0
                    != totals_view(out@)[b].0 by {
                    assert(totals_view(m@)[a].0 != totals_view(m@)[b].0);
                }
                assert forall|x: int| 0 <= x < out@.len() implies (#[trigger] out@[x]).1.costs.wf() by {
                    if x < i {
                        assert(out@[x] == before[x]);
                    }
                }
            }
            i += 1;
        }
        assert(costs_view(m@).take(m.len() as int) =~= costs_view(m@));
        let sentinel = match &self.0.sentinel {
            Some(s) => Some(s.duplicate()),
            None => None,
        };
        let sentinel_key = match &self.0.sentinel_key {
            Some(k) => Some(k.duplicate()),
            None => None,
        };
        FlamegraphMap(CallgrindMap { map: out, sentinel, sentinel_key })
    }

    /// Return true if this map is empty
    pub fn is_empty(&self) -> (r: bool)
        ensures
            r == (self.entries().len() == 0),
    {
        self.0.is_empty()
    }

    /// Calculate the cache summary of each function in place, if the first function has the
    /// counts of a cache simulation; an error, after the functions before it, at the first
    /// function that lacks one of them.
    pub fn make_summary(&mut self) -> (r: Result<(), FlamegraphError>)
        requires
            old(self).wf(),
        ensures
            final(self).wf(),
            final(self).0.sentinel_key == old(self).0.sentinel_key,
            final(self).entries().len() == old(self).entries().len(),
            forall|i: int| 0 <= i < old(self).entries().len() ==> #[trigger] final(self).entries()[i].0 == old(self).entries()[i].0,
            old(self).entries().len() == 0 || cost_of(old(self).entries()[0].1, EventKind::I1mr) is None ==> (r is Ok
                && final(self).entries() == old(self).entries()),
            old(self).entries().len() > 0 && cost_of(old(self).entries()[0].1, EventKind::I1mr) is Some ==> {
                &&& (r is Ok <==> forall|i: int| 0 <= i < old(self).entries().len() ==> summarizable(#[trigger] old(self).entries()[i].1))
                &&& r is Ok ==> forall|i: int| 0 <= i < old(self).entries().len() ==> #[trigger] final(self).entries()[i].1
                    == summarized(old(self).entries()[i].1)
                &&& r is Err ==> (r matches Err(FlamegraphError::Summary(_))) && exists|k: int| 0 <= k < old(self).entries().len() && {
                    &&& !summarizable(#[trigger] old(self).entries()[k].1)
                    &&& forall|i: int| 0 <= i < k ==> summarizable(#[trigger] old(self).entries()[i].1) && final(self).entries()[i].1 == summarized(old(self).entries()[i].1)
                    &&& forall|i: int| k <= i < old(self).entries().len() ==> #[trigger] final(self).entries()[i] == old(self).entries()[i]
                }
            },
    {
        let ghost old_e = self.entries();
        let n = self.0.map.len();
        if n == 0 {
            return Ok(());
        }
        assert(self.0.map@[0].1.costs.wf());
        assert(old_e[0] == (self.0.map@[0].0@, self.0.map@[0].1.costs@));
        if !self.0.map[0].1.costs.can_summarize() {
            return Ok(());
        }
        let mut i: usize = 0;
        while i < n
            invariant
                0 <= i <= n,
                n == self.0.map@.len(),
                old_e == old(self).entries(),
                old_e.len() == n,
                cost_of(old_e[0].1, EventKind::I1mr) is Some,
                self.wf(),
                self.0.sentinel_key == old(self).0.sentinel_key,
                self.entries().len() == n,
                forall|j: int| 0 <= j < n ==> #[trigger] self.entries()[j].0 == old_e[j].0,
                forall|j: int| 0 <= j < i ==> summarizable(#[trigger] old_e[j].1) && self.entries()[j].1 == summarized(old_e[j].1),
                forall|j: int| i <= j < n ==> #[trigger] self.entries()[j] == old_e[j],
            decreases n - i,
        {
            let ghost before = self.0.map@;
            let ghost cur = self.entries();
            assert(cur[i as int] == old_e[i as int]);
            assert(self.0.map@[i as int].1.costs.wf());
            let mut costs = self.0.map[i].1.costs.duplicate();
            match costs.make_summary() {
                Ok(()) => {},
                Err(e) => {
                    assert(!summarizable(old_e[i as int].1));
                    return Err(FlamegraphError::Summary(e));
                },
            }
            let id = self.0.map[i].0.duplicate();
            proof {
                lemma_set_entry(before, i as int, (id, Value { costs }));
            }
            self.0.map.set(i, (id, Value { costs }));
            proof {
                let upd = cur.update(i as int, (old_e[i as int].0, summarized(old_e[i as int].1)));
                assert(self.entries() == upd);
                assert forall|j: int| 0 <= j < n implies #[trigger] self.entries()[j].0 == old_e[j].0 by {
                    if j != i {
                        assert(upd[j] == cur[j]);
                    }
                }
                assert forall|j: int| i < j < n implies #[trigger] self.entries()[j] == old_e[j] by {
                    assert(upd[j] == cur[j]);
                }
                assert forall|j: int| 0 <= j < i + 1 implies summarizable(#[trigger] old_e[j].1) && self.entries()[j].1
                    == summarized(old_e[j].1) by {
                    if j < i {
                        assert(upd[j] == cur[j]);
                    }
                }
            }
            i += 1;
        }
        Ok(())
    }

    /// Add the costs of another map: the costs of a function present in both are added,
    /// position by position; the other functions are appended in the order of `other`.
    pub fn add(&mut self, other: &Self)
        requires
            old(self).wf(),
            other.wf(),
            costs_addable(old(self).entries(), other.entries()),
        ensures
            final(self).wf(),
            final(self).0.sentinel_key == old(self).0.sentinel_key,
            final(self).entries() == merge_all(old(self).entries(), other.entries()),
            forall|k: IdView| #[trigger] kv_get(final(self).entries(), k) == merged_costs(
                kv_get(old(self).entries(), k),
                kv_get(other.entries(), k),
            ),
    {
        let ghost se0 = self.entries();
        let ghost oe = other.entries();
        proof {
            lemma_same_keys(other.0.map@);
        }
        let n = other.0.map.len();
        let mut j: usize = 0;
        assert(oe.take(0) =~= Seq::<(IdView, Seq<(EventKind, u64)>)>::empty());
        while j < n
            invariant
                0 <= j <= n,
                n == other.0.map@.len(),
                oe == other.entries(),
                other.wf(),
                kv_distinct(oe),
                self.wf(),
                self.0.sentinel_key == old(self).0.sentinel_key,
                costs_addable(se0, oe),
                self.entries() == merge_all(se0, oe.take(j as int)),
                self.entries().len() >= se0.len(),
                forall|i: int| 0 <= i < se0.len() ==> #[trigger] self.entries()[i].0 == se0[i].0,
                forall|i: int|
                    0 <= i < se0.len() && (forall|t: int| 0 <= t < j ==> oe[t].0 != se0[i].0) ==> #[trigger] self.entries()[i]
                        == se0[i],
                forall|i: int|
                    se0.len() <= i < self.entries().len() ==> exists|t: int| 0 <= t < j && oe[t].0 == #[trigger] self.entries()[i].0,
            decreases n - j,
        {
            let ghost cur = self.entries();
            let ghost before = self.0.map@;
            assert(oe[j as int] == (other.0.map@[j as int].0@, other.0.map@[j as int].1.costs@));
            assert(other.0.map@[j as int].1.costs.wf());
            let ghost key = oe[j as int].0;
            proof {
                lemma_same_keys(before);
                lemma_kv_position(totals_view(before), key);
                lemma_kv_position(cur, key);
                assert(oe.take(j + 1).drop_last() =~= oe.take(j as int));
                assert(oe.take(j + 1).last() == oe[j as int]);
            }
            match find_id(&self.0.map, &other.0.map[j].0) {
                Some(i) => {
                    assert(totals_view(before)[i as int].0 == cur[i as int].0);
                    assert(cur[i as int] == (before[i as int].0@, before[i as int].1.costs@));
                    assert(kv_position(cur, key) == Some(i as int));
                    proof {
                        if i < se0.len() {
                            assert forall|t: int| 0 <= t < j implies oe[t].0 != se0[i as int].0 by {
                                assert(oe[t].0 != oe[j as int].0);
                            }
                            assert(cur[i as int] == se0[i as int]);
                            assert(se0[i as int].0 == oe[j as int].0);
                        } else {
                            let t = choose|t: int| 0 <= t < j && oe[t].0 == #[trigger] cur[i as int].0;
                            assert(oe[t].0 == oe[j as int].0);
                            assert(false);
                        }
                        assert(cost_values(cur[i as int].1) =~= before[i as int].1.costs.values());
                        assert(cost_values(oe[j as int].1) =~= other.0.map@[j as int].1.costs.values());
                    }
                    assert(before[i as int].1.costs.wf());
                    let mut c = self.0.map[i].1.costs.duplicate();
                    c.add(&other.0.map[j].1.costs);
                    proof {
                        lemma_added_view(c, before[i as int].1.costs, other.0.map@[j as int].1.costs);
                    }
                    let id = self.0.map[i].0.duplicate();
                    proof {
                        lemma_set_entry(before, i as int, (id, Value { costs: c }));
                    }
                    self.0.map.set(i, (id, Value { costs: c }));
                    proof {
                        assert(self.entries() =~= cur.update(i as int, (key, add_costs(cur[i as int].1, oe[j as int].1))));
                        assert forall|x: int|
                            0 <= x < se0.len() && (forall|t: int| 0 <= t < j + 1 ==> oe[t].0 != se0[x].0) implies #[trigger] self.entries()[x]
                                == se0[x] by {
                            assert(oe[j as int].0 != se0[x].0);
                            assert(forall|t: int| 0 <= t < j ==> oe[t].0 != se0[x].0);
                        }
                        assert forall|x: int| se0.len() <= x < self.entries().len() implies exists|t: int|
                            0 <= t < j + 1 && oe[t].0 == #[trigger] self.entries()[x].0 by {
                            assert(self.entries()[x].0 == cur[x].0);
                            let t = choose|t: int| 0 <= t < j && oe[t].0 == #[trigger] cur[x].0;
                            assert(0 <= t < j + 1 && oe[t].0 == self.entries()[x].0);
                        }
                    }
                },
                None => {
                    assert forall|x: int| 0 <= x < cur.len() implies cur[x].0 != key by {
                        assert(totals_view(before)[x].0 == cur[x].0);
                    }
                    assert(kv_position(cur, key) is None);
                    let id = other.0.map[j].0.duplicate();
                    let costs = other.0.map[j].1.costs.duplicate();
                    proof {
                        lemma_push_entry(before, (id, Value { costs }));
                    }
                    self.0.map.push((id, Value { costs }));
                    proof {
                        assert(self.entries() =~= cur.push((key, oe[j as int].1)));
                        assert forall|x: int|
                            0 <= x < se0.len() && (forall|t: int| 0 <= t < j + 1 ==> oe[t].0 != se0[x].0) implies #[trigger] self.entries()[x]
                                == se0[x] by {
                            assert(forall|t: int| 0 <= t < j ==> oe[t].0 != se0[x].0);
                        }
                        assert forall|x: int| se0.len() <= x < self.entries().len() implies exists|t: int|
                            0 <= t < j + 1 && oe[t].0 == #[trigger] self.entries()[x].0 by {
                            if x < cur.len() {
                                let t = choose|t: int| 0 <= t < j && oe[t].0 == #[trigger] cur[x].0;
                                assert(0 <= t < j + 1 && oe[t].0 == self.entries()[x].0);
                            } else {
                                assert(oe[j as int].0 == self.entries()[x].0);
                            }
                        }
                    }
                },
            }
            j += 1;
        }
        assert(oe.take(n as int) =~= oe);
        proof {
            lemma_same_keys(old(self).0.map@);
            assert forall|k: IdView| #[trigger] kv_get(self.entries(), k) == merged_costs(kv_get(se0, k), kv_get(oe, k)) by {
                lemma_merge_all_costs(se0, oe, k);
            }
        }
    }

    /// Convert to the stacks of the folded format for this event kind: the functions that cost
    /// no more than the sentinel, sorted by cost, highest first, and name; line `k` holds the
    /// stack of the first `k + 1` of them and the cost of the last less that of the next.
    ///
    /// An error if a function has no cost of this event kind.
    pub fn to_stack_format(&self, event_kind: &EventKind) -> (r: Result<Vec<String>, FlamegraphError>)
        requires
            self.wf(),
            self.sentinel_present(),
        ensures
            self.entries().len() == 0 ==> (r matches Ok(v) && v@.len() == 0),
            self.entries().len() > 0 ==> (r is Err <==> exists|i: int|
                0 <= i < self.entries().len() && cost_of(#[trigger] self.entries()[i].1, *event_kind) is None),
            r is Err ==> r == Err::<Vec<String>, FlamegraphError>(FlamegraphError::MissingEventKind(*event_kind)),
            self.entries().len() > 0 ==> (r matches Ok(v) ==> line_views(v@) == stack_lines(
                stack_items(self.entries(), *event_kind, self.sentinel_limit(*event_kind)).sort_by(item_order()),
            )),
    {
        let m = &self.0.map;
        let ghost entries = self.entries();
        if m.len() == 0 {
            return Ok(Vec::new());
        }
        let limit: Option<u64> = match &self.0.sentinel_key {
            Some(key) => {
                proof {
                    lemma_kv_position(totals_view(m@), key@);
                    lemma_same_keys(m@);
                    lemma_kv_position(entries, key@);
                }
                match find_id(m, key) {
                    Some(i) => {
                        assert(entries[i as int] == (m@[i as int].0@, m@[i as int].1.costs@));
                        assert(totals_view(m@)[i as int].0 == entries[i as int].0);
                        assert(m@[i as int].1.costs.wf());
                        match m[i].1.costs.cost_by_kind(event_kind) {
                            Some(c) => Some(c),
                            None => {
                                assert(cost_of(entries[i as int].1, *event_kind) is None);
                                return Err(FlamegraphError::MissingEventKind(*event_kind));
                            },
                        }
                    },
                    None => {
                        return Err(FlamegraphError::MissingEventKind(*event_kind));
                    },
                }
            },
            None => None,
        };
        assert(limit == self.sentinel_limit(*event_kind));
        let mut items: Vec<(Vec<char>, u64)> = Vec::new();
        let mut i: usize = 0;
        while i < m.len()
            invariant
                0 <= i <= m.len(),
                entries == costs_view(m@),
                self.wf(),
                m == &self.0.map,
                items_view(items@) == stack_items(entries.take(i as int), *event_kind, limit),
                forall|j: int| 0 <= j < i ==> cost_of(#[trigger] entries[j].1, *event_kind) is Some,
            decreases m.len() - i,
        {
            assert(entries[i as int] == (m@[i as int].0@, m@[i as int].1.costs@));
            assert(m@[i as int].1.costs.wf());
            assert(entries.take(i + 1).drop_last() =~= entries.take(i as int));
            match m[i].1.costs.cost_by_kind(event_kind) {
                Some(c) => {
                    let keep = match limit {
                        Some(l) => c <= l,
                        None => true,
                    };
                    if keep {
                        let s = source_of(&m[i].0);
                        items.push((s, c));
                        assert(items_view(items@) =~= stack_items(entries.take(i as int), *event_kind, limit).push(
                            (id_source(entries[i as int].0), c),
                        ));
                    }
                },
                None => {
                    assert(cost_of(entries[i as int].1, *event_kind) is None);
                    return Err(FlamegraphError::MissingEventKind(*event_kind));
                },
            }
            i += 1;
        }
        assert(entries.take(m.len() as int) =~= entries);
        let ghost all = items_view(items@);
        let sorted = sort_items(items);
        let ghost sv = items_view(sorted@);
        proof {
            lemma_item_order_total();
            all.lemma_sort_by_ensures(item_order());
            assert(sorted_by(sv, item_order()));
        }
        let n = sorted.len();
        let mut lines: Vec<String> = Vec::new();
        let mut prefix: Vec<char> = Vec::new();
        let mut k: usize = 0;
        while k < n
            invariant
                0 <= k <= n,
                n == sorted.len(),
                sv == items_view(sorted@),
                sorted_by(sv, item_order()),
                lines.len() == k,
                forall|j: int| 0 <= j < k ==> line_views(lines@)[j] == #[trigger] stack_line(sv, j),
                k > 0 ==> prefix@ == stack_prefix(sv, k - 1),
                k == 0 ==> prefix@.len() == 0,
            decreases n - k,
        {
            assert(sv[k as int] == (sorted@[k as int].0@, sorted@[k as int].1));
            let ghost old_prefix = prefix@;
            if k > 0 {
                prefix.push(';');
            }
            append_chars(&mut prefix, &sorted[k].0);
            if k > 0 {
                assert(prefix@ =~= old_prefix.push(';') + sv[k as int].0);
            } else {
                assert(prefix@ =~= sv[0].0);
            }
            assert(prefix@ == stack_prefix(sv, k as int));
            let cost: u64 = if k + 1 < n {
                assert(sv[k + 1] == (sorted@[k + 1].0@, sorted@[k + 1].1));
                assert(item_order()(sv[k as int], sv[k + 1]));
                assert(item_le(sv[k as int], sv[k + 1]));
                sorted[k].1 - sorted[k + 1].1
            } else {
                sorted[k].1
            };
            let mut line: Vec<char> = Vec::new();
            append_chars(&mut line, &prefix);
            line.push(' ');
            let digits = u64_to_chars(cost);
            append_chars(&mut line, &digits);
            assert(line@ == stack_line(sv, k as int));
            let ghost before = lines@;
            lines.push(from_chars(&line));
            assert forall|j: int| 0 <= j <= k implies line_views(lines@)[j] == #[trigger] stack_line(sv, j) by {
                if j < k {
                    assert(lines@[j] == before[j]);
                }
            }
            k += 1;
        }
        assert(line_views(lines@) =~= stack_lines(sv));
        Ok(lines)
    }
}

/// The cost that stack line `k` gives its last entry: its cost less that of the next entry,
/// the full cost for the last entry.
pub open spec fn line_cost(items: Seq<StackItem>, k: int) -> int {
    if k + 1 < items.len() {
        items[k].1 - items[k + 1].1
    } else {
        items[k].1 as int
    }
}

/// The sum of the costs of the stack lines `k..`.
pub open spec fn line_costs_from(items: Seq<StackItem>, k: int) -> int
    decreases items.len() - k,
{
    if k >= items.len() {
        0
    } else {
        line_cost(items, k) + line_costs_from(items, k + 1)
    }
}

/// Each stack line is the stack up to its entry with the cost that [`line_cost`] gives it.
pub proof fn lemma_stack_line_cost(items: Seq<StackItem>, k: int)
    requires
        0 <= k < items.len(),
        sorted_by(items, item_order()),
    ensures
        line_cost(items, k) >= 0,
        stack_line(items, k) == stack_prefix(items, k).push(' ') + decimal(line_cost(items, k) as nat),
{
    if k + 1 < items.len() {
        assert(item_order()(items[k], items[k + 1]));
    }
}

/// The stack lines of a flamegraph add up to the cost of its most expensive function: the
/// costs of the lines `k..` add up to the cost of entry `k`.
pub proof fn lemma_stack_costs_total(items: Seq<StackItem>, k: int)
    requires
        0 <= k < items.len(),
    ensures
        line_costs_from(items, k) == items[k].1,
    decreases items.len() - k,
{
    if k + 1 < items.len() {
        lemma_stack_costs_total(items, k + 1);
    } else {
        assert(line_costs_from(items, k + 1) == 0);
    }
}

/// The costs a function has after an entry of it was added to a map.
pub open spec fn merged_costs(
    a: Option<Seq<(EventKind, u64)>>,
    b: Option<Seq<(EventKind, u64)>>,
) -> Option<Seq<(EventKind, u64)>> {
    match (a, b) {
        (Some(x), Some(y)) => Some(add_costs(x, y)),
        (Some(x), None) => Some(x),
        (None, Some(y)) => Some(y),
        (None, None) => None,
    }
}

/// Adding an entry is an insertion of the merged costs.
proof fn lemma_merge_entry_insert(
    s: Seq<(IdView, Seq<(EventKind, u64)>)>,
    k: IdView,
    c: Seq<(EventKind, u64)>,
)
    requires
        kv_distinct(s),
    ensures
        merge_entry(s, k, c) == crate::collections::kv_insert(s, k, merged_costs(kv_get(s, k), Some(c)).unwrap()),
        kv_distinct(merge_entry(s, k, c)),
        kv_get(merge_entry(s, k, c), k) == merged_costs(kv_get(s, k), Some(c)),
        forall|j: IdView| j != k ==> #[trigger] kv_get(merge_entry(s, k, c), j) == kv_get(s, j),
{
    let v = merged_costs(kv_get(s, k), Some(c)).unwrap();
    crate::collections::lemma_kv_insert(s, k, v);
    lemma_kv_position(s, k);
    let t = merge_entry(s, k, c);
    assert(t == crate::collections::kv_insert(s, k, v));
    lemma_kv_position(t, k);
    assert forall|j: IdView| j != k implies #[trigger] kv_get(t, j) == kv_get(s, j) by {
        lemma_kv_position(s, j);
        lemma_kv_position(t, j);
        match kv_position(s, j) {
            Some(i) => {
                assert(t[i] == s[i]);
            },
            None => {
                assert forall|i: int| 0 <= i < t.len() implies t[i].0 != j by {
                    if i < s.len() {
                        assert(t[i].0 == s[i].0);
                    }
                }
            },
        }
    }
}

/// The sum of maps holds each function of either map: with the sum of its costs where both
/// have it, else with its costs in the one that has it.
pub proof fn lemma_merge_all_costs(
    s: Seq<(IdView, Seq<(EventKind, u64)>)>,
    pairs: Seq<(IdView, Seq<(EventKind, u64)>)>,
    k: IdView,
)
    requires
        kv_distinct(s),
        kv_distinct(pairs),
    ensures
        kv_distinct(merge_all(s, pairs)),
        kv_get(merge_all(s, pairs), k) == merged_costs(kv_get(s, k), kv_get(pairs, k)),
    decreases pairs.len(),
{
    if pairs.len() == 0 {
        assert(kv_get(pairs, k) is None);
    } else {
        let init = pairs.drop_last();
        let last = pairs.last();
        assert(kv_distinct(init));
        lemma_merge_all_costs(s, init, k);
        lemma_merge_all_costs(s, init, last.0);
        let m = merge_all(s, init);
        lemma_merge_entry_insert(m, last.0, last.1);
        lemma_kv_position(pairs, k);
        lemma_kv_position(init, k);
        lemma_kv_position(pairs, last.0);
        lemma_kv_position(init, last.0);
        assert(pairs[pairs.len() - 1] == last);
        assert forall|i: int| 0 <= i < init.len() implies init[i].0 != last.0 by {
            assert(pairs[i] == init[i]);
        }
        if k == last.0 {
            assert(kv_get(pairs, k) == Some(last.1));
            assert(kv_get(init, k) is None);
        } else {
            match kv_position(init, k) {
                Some(i) => {
                    assert(pairs[i] == init[i]);
                    assert(kv_get(pairs, k) == kv_get(init, k));
                },
                None => {
                    assert forall|i: int| 0 <= i < pairs.len() implies pairs[i].0 != k by {
                        if i < init.len() {
                            assert(pairs[i] == init[i]);
                        }
                    }
                    assert(kv_get(pairs, k) is None);
                },
            }
        }
    }
}

} // verus!
