//! The costs (event counts) of a callgrind record in the order of the `events:` line.
use vstd::prelude::*;

use indexmap::IndexMap;

use crate::api::EventKind;
use crate::collections::{
    assoc_distinct, assoc_get, assoc_insert, assoc_position, distinct_keys, lemma_assoc_insert,
    lemma_assoc_position, map_clone, map_entries, map_get_index,
    map_get_index_of, map_insert, map_len, map_new, map_set_value_at,
};
use crate::text::{parse_u64, parse_u64_exec};

verus! {

/// The kind stored under a key of the underlying map.
pub open spec fn kind_of(k: u8) -> EventKind {
    EventKind::spec_from_index(k).unwrap()
}

/// A valid key of the underlying map.
pub open spec fn valid_key(k: u8) -> bool {
    k < 29
}

pub proof fn lemma_kind_index(k: EventKind)
    ensures
        valid_key(k.spec_index()),
        kind_of(k.spec_index()) == k,
{
}

pub proof fn lemma_index_kind(k: u8)
    requires
        valid_key(k),
    ensures
        kind_of(k).spec_index() == k,
{
}

pub proof fn lemma_kind_of_injective()
    ensures
        forall|a: u8, b: u8|
            valid_key(a) && valid_key(b) && #[trigger] kind_of(a) == #[trigger] kind_of(b) ==> a
                == b,
{
    assert forall|a: u8, b: u8|
        valid_key(a) && valid_key(b) && #[trigger] kind_of(a) == #[trigger] kind_of(b) implies a
        == b by {
        lemma_index_kind(a);
        lemma_index_kind(b);
    }
}

/// The costs of a callgrind record: event kinds with their counts, in insertion order.
#[derive(Debug)]
pub struct Costs {
    pub map: IndexMap<u8, u64>,
}

/// The error of a lookup of an event kind that is not present.
#[derive(Debug, Clone, Copy, PartialEq, Eq, Structural)]
pub enum CostsError {
    /// `Missing event type '{kind}`
    MissingEventKind(EventKind),
}

impl CostsError {
    /// The message of this error
    pub fn message(&self) -> (r: String)
        ensures
            match self {
                CostsError::MissingEventKind(k) => r@ == "Missing event type '"@ + k.spec_display() + "'"@,
            },
    {
        match self {
            CostsError::MissingEventKind(k) => {
                let mut c = crate::text::to_chars("Missing event type '");
                let name = k.to_string();
                crate::text::append_str(&mut c, name.as_str());
                crate::text::append_str(&mut c, "'");
                crate::text::from_chars(&c)
            },
        }
    }
}

/// Add the parsed counts of `tokens` to the values, position by position. Where there are fewer
/// tokens than values, the remaining values stay the same.
pub open spec fn add_tokens(vals: Seq<u64>, tokens: Seq<Seq<char>>) -> Seq<u64> {
    Seq::new(
        vals.len(),
        |i: int|
            if i < tokens.len() {
                (vals[i] + parse_u64(tokens[i]).unwrap()) as u64
            } else {
                vals[i]
            },
    )
}

/// Every token that meets a value parses as a `u64`, and the sums fit in a `u64`.
pub open spec fn tokens_addable(vals: Seq<u64>, tokens: Seq<Seq<char>>) -> bool {
    forall|i: int|
        0 <= i < vals.len() && i < tokens.len() ==> {
            &&& #[trigger] parse_u64(tokens[i]) is Some
            &&& vals[i] + parse_u64(tokens[i]).unwrap() <= u64::MAX
        }
}

/// Add `other` to the values, position by position.
pub open spec fn add_values(vals: Seq<u64>, other: Seq<u64>) -> Seq<u64> {
    Seq::new(
        vals.len(),
        |i: int|
            if i < other.len() {
                (vals[i] + other[i]) as u64
            } else {
                vals[i]
            },
    )
}

/// The sums of [`add_values`] fit in a `u64`.
pub open spec fn values_addable(vals: Seq<u64>, other: Seq<u64>) -> bool {
    forall|i: int| 0 <= i < vals.len() && i < other.len() ==> #[trigger] vals[i] + other[i] <= u64::MAX
}

/// The costs built from `pairs` by inserting them one after the other.
pub open spec fn insert_all(s: Seq<(EventKind, u64)>, pairs: Seq<(EventKind, u64)>) -> Seq<
    (EventKind, u64),
>
    decreases pairs.len(),
{
    if pairs.len() == 0 {
        s
    } else {
        assoc_insert(insert_all(s, pairs.drop_last()), pairs.last().0, pairs.last().1)
    }
}

/// The kinds of `b` that are not in `a`, appended to `a`.
pub open spec fn union_kinds(a: Seq<EventKind>, b: Seq<EventKind>) -> Seq<EventKind>
    decreases b.len(),
{
    if b.len() == 0 {
        a
    } else {
        let u = union_kinds(a, b.drop_last());
        if u.contains(b.last()) {
            u
        } else {
            u.push(b.last())
        }
    }
}

/// The view of the entries of the underlying map.
pub open spec fn entries_view(s: Seq<(u8, u64)>) -> Seq<(EventKind, u64)> {
    s.map_values(|e: (u8, u64)| (kind_of(e.0), e.1))
}

pub proof fn lemma_entries_view_set(s: Seq<(u8, u64)>, i: int, v: u64)
    requires
        0 <= i < s.len(),
    ensures
        entries_view(s.update(i, (s[i].0, v))) == entries_view(s).update(i, (kind_of(s[i].0), v)),
        entries_view(s.update(i, (s[i].0, v))).map_values(|e: (EventKind, u64)| e.0)
            == entries_view(s).map_values(|e: (EventKind, u64)| e.0),
        entries_view(s.update(i, (s[i].0, v))).map_values(|e: (EventKind, u64)| e.1)
            == entries_view(s).map_values(|e: (EventKind, u64)| e.1).update(i, v),
{
    assert(entries_view(s.update(i, (s[i].0, v))) =~= entries_view(s).update(
        i,
        (kind_of(s[i].0), v),
    ));
    assert(entries_view(s.update(i, (s[i].0, v))).map_values(|e: (EventKind, u64)| e.0)
        =~= entries_view(s).map_values(|e: (EventKind, u64)| e.0));
    assert(entries_view(s.update(i, (s[i].0, v))).map_values(|e: (EventKind, u64)| e.1)
        =~= entries_view(s).map_values(|e: (EventKind, u64)| e.1).update(i, v));
}

pub proof fn lemma_entries_view_insert(s: Seq<(u8, u64)>, k: u8, v: u64)
    requires
        distinct_keys(s),
        valid_key(k),
        forall|i: int| 0 <= i < s.len() ==> valid_key(#[trigger] s[i].0),
    ensures
        entries_view(assoc_insert(s, k, v)) == assoc_insert(entries_view(s), kind_of(k), v),
        assoc_distinct(entries_view(s)),
{
    lemma_kind_of_injective();
    let t = entries_view(s);
    assert forall|i: int, j: int| 0 <= i < t.len() && 0 <= j < t.len() && i != j implies t[i].0
        != t[j].0 by {
        assert(s[i].0 != s[j].0);
        assert(valid_key(s[i].0));
        assert(valid_key(s[j].0));
    }
    lemma_assoc_position(s, k);
    lemma_assoc_position(t, kind_of(k));
    if exists|i: int| 0 <= i < s.len() && s[i].0 == k {
        let i = choose|i: int| 0 <= i < s.len() && s[i].0 == k;
        assert(t[i].0 == kind_of(k));
        assert(entries_view(assoc_insert(s, k, v)) =~= assoc_insert(t, kind_of(k), v));
    } else {
        assert forall|i: int| 0 <= i < t.len() implies t[i].0 != kind_of(k) by {
            assert(s[i].0 != k);
            assert(valid_key(s[i].0));
        }
        assert(entries_view(assoc_insert(s, k, v)) =~= assoc_insert(t, kind_of(k), v));
    }
}

impl View for Costs {
    type V = Seq<(EventKind, u64)>;

    open spec fn view(&self) -> Seq<(EventKind, u64)> {
        entries_view(map_entries(self.map))
    }
}

impl Costs {
    /// The well-formedness of the underlying map: distinct, valid keys.
    pub open spec fn wf(self) -> bool {
        &&& distinct_keys(map_entries(self.map))
        &&& forall|i: int|
            0 <= i < map_entries(self.map).len() ==> valid_key(#[trigger] map_entries(self.map)[i].0)
    }

    /// The event kinds in order.
    pub open spec fn kinds(self) -> Seq<EventKind> {
        self@.map_values(|e: (EventKind, u64)| e.0)
    }

    /// The counts in order.
    pub open spec fn values(self) -> Seq<u64> {
        self@.map_values(|e: (EventKind, u64)| e.1)
    }

    pub proof fn lemma_wf_view(self)
        requires
            self.wf(),
        ensures
            assoc_distinct(self@),
            self@.len() == map_entries(self.map).len(),
    {
        lemma_kind_of_injective();
        let s = map_entries(self.map);
        assert forall|i: int, j: int|
            0 <= i < self@.len() && 0 <= j < self@.len() && i != j implies self@[i].0
            != self@[j].0 by {
            assert(s[i].0 != s[j].0);
            assert(valid_key(s[i].0));
            assert(valid_key(s[j].0));
        }
    }

    /// Costs without any event kind.
    pub fn empty() -> (r: Costs)
        ensures
            r.wf(),
            r@ == Seq::<(EventKind, u64)>::empty(),
    {
        let r = Costs { map: map_new() };
        assert(r@ =~= Seq::<(EventKind, u64)>::empty());
        r
    }

    /// Insert `value` for `kind`: an existing entry keeps its position and gets the new value,
    /// otherwise the entry is appended.
    pub fn insert(&mut self, kind: EventKind, value: u64)
        requires
            old(self).wf(),
        ensures
            final(self).wf(),
            final(self)@ == assoc_insert(old(self)@, kind, value),
    {
        let k = kind.to_index();
        let ghost before = map_entries(self.map);
        proof {
            lemma_kind_index(kind);
            lemma_assoc_insert(before, k, value);
            lemma_entries_view_insert(before, k, value);
        }
        map_insert(&mut self.map, k, value);
        proof {
            let after = map_entries(self.map);
            assert forall|i: int| 0 <= i < after.len() implies valid_key(#[trigger] after[i].0) by {
                if i < before.len() {
                    assert(valid_key(before[i].0));
                }
            }
        }
    }

    /// Create new `Costs` from `(kind, value)` pairs. The order matters: the index of a kind is
    /// the position of its first insertion; a later pair with the same kind replaces the value.
    pub fn with_event_kinds(kinds: &Vec<(EventKind, u64)>) -> (r: Costs)
        ensures
            r.wf(),
            r@ == insert_all(Seq::empty(), kinds@),
    {
        let mut r = Costs::empty();
        let mut i: usize = 0;
        while i < kinds.len()
            invariant
                0 <= i <= kinds.len(),
                r.wf(),
                r@ == insert_all(Seq::empty(), kinds@.take(i as int)),
            decreases kinds.len() - i,
        {
            let (k, v) = kinds[i];
            r.insert(k, v);
            assert(kinds@.take(i + 1).drop_last() =~= kinds@.take(i as int));
            i += 1;
        }
        assert(kinds@.take(kinds.len() as int) =~= kinds@);
        r
    }

    /// Create new `Costs` from event names with all counts zero. Requires known event names.
    pub fn from_event_names(names: &Vec<Vec<char>>) -> (r: Costs)
        requires
            forall|i: int| 0 <= i < names.len() ==> EventKind::spec_from_name(#[trigger] names@[i]@) is Some,
        ensures
            r.wf(),
            r@ == insert_all(
                Seq::empty(),
                names@.map_values(|n: Vec<char>| (EventKind::spec_from_name(n@).unwrap(), 0u64)),
            ),
    {
        let ghost pairs = names@.map_values(
            |n: Vec<char>| (EventKind::spec_from_name(n@).unwrap(), 0u64),
        );
        let mut r = Costs::empty();
        let mut i: usize = 0;
        while i < names.len()
            invariant
                0 <= i <= names.len(),
                r.wf(),
                pairs == names@.map_values(
                    |n: Vec<char>| (EventKind::spec_from_name(n@).unwrap(), 0u64),
                ),
                forall|j: int| 0 <= j < names.len() ==> EventKind::spec_from_name(#[trigger] names@[j]@) is Some,
                r@ == insert_all(Seq::empty(), pairs.take(i as int)),
            decreases names.len() - i,
        {
            let k = EventKind::try_from_name(&names[i]);
            match k {
                Some(k) => {
                    r.insert(k, 0);
                },
                None => {},
            }
            assert(pairs.take(i + 1).drop_last() =~= pairs.take(i as int));
            i += 1;
        }
        assert(pairs.take(names.len() as int) =~= pairs);
        r
    }

    /// The number of event kinds
    pub fn len(&self) -> (r: usize)
        requires
            self.wf(),
        ensures
            r == self@.len(),
    {
        map_len(&self.map)
    }

    /// Return the cost of the event at `index` (of insertion order) if present
    pub fn cost_by_index(&self, index: usize) -> (r: Option<u64>)
        ensures
            index < self@.len() ==> r == Some(self@[index as int].1),
            index >= self@.len() ==> r is None,
    {
        match map_get_index(&self.map, index) {
            Some((_, c)) => Some(c),
            None => None,
        }
    }

    /// Return the cost of the event kind if present
    pub fn cost_by_kind(&self, kind: &EventKind) -> (r: Option<u64>)
        requires
            self.wf(),
        ensures
            r == assoc_get(self@, *kind),
    {
        let k = kind.to_index();
        proof {
            self.lemma_wf_view();
            lemma_kind_index(*kind);
            lemma_kind_of_injective();
            lemma_assoc_position(self@, *kind);
            lemma_assoc_position(map_entries(self.map), k);
        }
        match map_get_index_of(&self.map, k) {
            Some(i) => {
                let e = map_get_index(&self.map, i);
                proof {
                    assert(self@[i as int].0 == *kind);
                }
                match e {
                    Some((_, c)) => Some(c),
                    None => None,
                }
            },
            None => {
                proof {
                    assert forall|i: int| 0 <= i < self@.len() implies self@[i].0 != *kind by {
                        let s = map_entries(self.map);
                        assert(s[i].0 != k);
                        assert(valid_key(s[i].0));
                    }
                }
                None
            },
        }
    }

    /// Return the cost of the event kind, or an error if it is not present
    pub fn try_cost_by_kind(&self, kind: &EventKind) -> (r: Result<u64, CostsError>)
        requires
            self.wf(),
        ensures
            assoc_get(self@, *kind) matches Some(c) ==> r == Ok::<u64, CostsError>(c),
            assoc_get(self@, *kind) is None ==> r == Err::<u64, CostsError>(
                CostsError::MissingEventKind(*kind),
            ),
    {
        match self.cost_by_kind(kind) {
            Some(c) => Ok(c),
            None => Err(CostsError::MissingEventKind(*kind)),
        }
    }

    /// The event kinds in insertion order
    pub fn event_kinds(&self) -> (r: Vec<EventKind>)
        requires
            self.wf(),
        ensures
            r@ == self.kinds(),
    {
        let n = map_len(&self.map);
        let mut r: Vec<EventKind> = Vec::new();
        let mut i: usize = 0;
        while i < n
            invariant
                0 <= i <= n,
                n == self@.len(),
                self.wf(),
                r@ == self.kinds().take(i as int),
            decreases n - i,
        {
            let e = map_get_index(&self.map, i);
            match e {
                Some((k, _)) => {
                    proof {
                        let s = map_entries(self.map);
                        assert(valid_key(s[i as int].0));
                        lemma_index_kind(k);
                    }
                    match EventKind::from_index(k) {
                        Some(kind) => r.push(kind),
                        None => {},
                    }
                },
                None => {},
            }
            assert(self.kinds().take(i + 1) =~= self.kinds().take(i as int).push(
                self.kinds()[i as int],
            ));
            i += 1;
        }
        assert(self.kinds().take(n as int) =~= self.kinds());
        r
    }

    /// The `(kind, cost)` entries in insertion order
    pub fn entries(&self) -> (r: Vec<(EventKind, u64)>)
        requires
            self.wf(),
        ensures
            r@ == self@,
    {
        let n = map_len(&self.map);
        let mut r: Vec<(EventKind, u64)> = Vec::new();
        let mut i: usize = 0;
        while i < n
            invariant
                0 <= i <= n,
                n == self@.len(),
                self.wf(),
                r@ == self@.take(i as int),
            decreases n - i,
        {
            let e = map_get_index(&self.map, i);
            match e {
                Some((k, c)) => {
                    proof {
                        let s = map_entries(self.map);
                        assert(valid_key(s[i as int].0));
                        lemma_index_kind(k);
                    }
                    match EventKind::from_index(k) {
                        Some(kind) => r.push((kind, c)),
                        None => {},
                    }
                },
                None => {},
            }
            assert(self@.take(i + 1) =~= self@.take(i as int).push(self@[i as int]));
            i += 1;
        }
        assert(self@.take(n as int) =~= self@);
        r
    }

    /// Add the counts of `tokens`, position by position, to the costs
    ///
    /// From the documentation of the callgrind format: If a cost line specifies less event
    /// counts than given in the "events" line, the rest is assumed to be zero.
    pub fn add_iter_str(&mut self, tokens: &Vec<Vec<char>>)
        requires
            old(self).wf(),
            tokens_addable(old(self).values(), tokens@.map_values(|t: Vec<char>| t@)),
        ensures
            final(self).wf(),
            final(self).kinds() == old(self).kinds(),
            final(self).values() == add_tokens(
                old(self).values(),
                tokens@.map_values(|t: Vec<char>| t@),
            ),
    {
        let ghost toks = tokens@.map_values(|t: Vec<char>| t@);
        let ghost old_values = self.values();
        let ghost old_kinds = self.kinds();
        let n = map_len(&self.map);
        let mut i: usize = 0;
        while i < n
            invariant
                0 <= i <= n,
                n == self@.len(),
                n == old_values.len(),
                self.wf(),
                toks == tokens@.map_values(|t: Vec<char>| t@),
                tokens_addable(old_values, toks),
                self.kinds() == old_kinds,
                forall|j: int| 0 <= j < i ==> #[trigger] self.values()[j] == add_tokens(old_values, toks)[j],
                forall|j: int| i <= j < n ==> #[trigger] self.values()[j] == old_values[j],
            decreases n - i,
        {
            if i < tokens.len() {
                let c = parse_u64_exec(&tokens[i]);
                assert(toks[i as int] == tokens@[i as int]@);
                let e = map_get_index(&self.map, i);
                match (c, e) {
                    (Some(c), Some((_, old))) => {
                        assert(self.values()[i as int] == old);
                        let ghost before = map_entries(self.map);
                        map_set_value_at(&mut self.map, i, old + c);
                        proof {
                            lemma_entries_view_set(before, i as int, (old + c) as u64);
                            let after = map_entries(self.map);
                            assert forall|a: int, b: int|
                                0 <= a < after.len() && 0 <= b < after.len() && a != b implies after[a].0
                                != after[b].0 by {
                                assert(before[a].0 != before[b].0);
                            }
                            assert forall|j: int| 0 <= j < after.len() implies valid_key(
                                #[trigger] after[j].0,
                            ) by {
                                assert(valid_key(before[j].0));
                            }
                            assert(self.kinds() =~= old_kinds);
                        }
                    },
                    _ => {},
                }
            }
            i += 1;
        }
        assert(self.values() =~= add_tokens(old_values, toks));
    }

    /// Add the counts of `other`, position by position, to these costs
    pub fn add(&mut self, other: &Costs)
        requires
            old(self).wf(),
            values_addable(old(self).values(), other.values()),
        ensures
            final(self).wf(),
            final(self).kinds() == old(self).kinds(),
            final(self).values() == add_values(old(self).values(), other.values()),
    {
        let ghost old_values = self.values();
        let ghost old_kinds = self.kinds();
        let n = map_len(&self.map);
        let m = map_len(&other.map);
        let mut i: usize = 0;
        while i < n
            invariant
                0 <= i <= n,
                n == self@.len(),
                m == other@.len(),
                n == old_values.len(),
                self.wf(),
                values_addable(old_values, other.values()),
                self.kinds() == old_kinds,
                forall|j: int| 0 <= j < i ==> #[trigger] self.values()[j] == add_values(old_values, other.values())[j],
                forall|j: int| i <= j < n ==> #[trigger] self.values()[j] == old_values[j],
            decreases n - i,
        {
            if i < m {
                let c = map_get_index(&other.map, i);
                let e = map_get_index(&self.map, i);
                match (c, e) {
                    (Some((_, c)), Some((_, old))) => {
                        assert(self.values()[i as int] == old);
                        assert(other.values()[i as int] == c);
                        let ghost before = map_entries(self.map);
                        map_set_value_at(&mut self.map, i, old + c);
                        proof {
                            lemma_entries_view_set(before, i as int, (old + c) as u64);
                            let after = map_entries(self.map);
                            assert forall|a: int, b: int|
                                0 <= a < after.len() && 0 <= b < after.len() && a != b implies after[a].0
                                != after[b].0 by {
                                assert(before[a].0 != before[b].0);
                            }
                            assert forall|j: int| 0 <= j < after.len() implies valid_key(
                                #[trigger] after[j].0,
                            ) by {
                                assert(valid_key(before[j].0));
                            }
                            assert(self.kinds() =~= old_kinds);
                        }
                    },
                    _ => {},
                }
            }
            i += 1;
        }
        assert(self.values() =~= add_values(old_values, other.values()));
    }

    /// A copy of these costs
    pub fn duplicate(&self) -> (r: Costs)
        ensures
            r@ == self@,
            r.wf() == self.wf(),
    {
        Costs { map: map_clone(&self.map) }
    }
}

} // verus!
