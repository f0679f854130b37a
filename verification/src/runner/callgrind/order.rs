//! The order of callgrind output files by their target ids: process, part and thread.
use vstd::prelude::*;

use core::cmp::Ordering;

use crate::runner::callgrind::parser::{
    rank_i32, rank_u64, rank_usize, target_ids, target_ids_lt, CallgrindProperties,
};

verus! {

/// The order of two ranks.
pub open spec fn rank_order(a: int, b: int) -> Ordering {
    if a < b {
        Ordering::Less
    } else if a == b {
        Ordering::Equal
    } else {
        Ordering::Greater
    }
}

/// The order of two optional process ids, a missing one first
fn order_pids(a: Option<i32>, b: Option<i32>) -> (r: Ordering)
    ensures
        r == rank_order(rank_i32(a), rank_i32(b)),
{
    match (a, b) {
        (None, None) => Ordering::Equal,
        (None, Some(_)) => Ordering::Less,
        (Some(_), None) => Ordering::Greater,
        (Some(x), Some(y)) => if x < y {
            Ordering::Less
        } else if x == y {
            Ordering::Equal
        } else {
            Ordering::Greater
        },
    }
}

/// The order of two optional parts, a missing one first
fn order_parts(a: Option<u64>, b: Option<u64>) -> (r: Ordering)
    ensures
        r == rank_order(rank_u64(a), rank_u64(b)),
{
    match (a, b) {
        (None, None) => Ordering::Equal,
        (None, Some(_)) => Ordering::Less,
        (Some(_), None) => Ordering::Greater,
        (Some(x), Some(y)) => if x < y {
            Ordering::Less
        } else if x == y {
            Ordering::Equal
        } else {
            Ordering::Greater
        },
    }
}

/// The order of two optional thread ids, a missing one first
fn order_threads(a: Option<usize>, b: Option<usize>) -> (r: Ordering)
    ensures
        r == rank_order(rank_usize(a), rank_usize(b)),
{
    match (a, b) {
        (None, None) => Ordering::Equal,
        (None, Some(_)) => Ordering::Less,
        (Some(_), None) => Ordering::Greater,
        (Some(x), Some(y)) => if x < y {
            Ordering::Less
        } else if x == y {
            Ordering::Equal
        } else {
            Ordering::Greater
        },
    }
}

impl CallgrindProperties {
    /// Compare by the target ids `pid`, `part` and `thread`: `pid` takes the highest
    /// precedence, `part` the second and `thread` the third, each ascending with a missing id
    /// first.
    pub fn compare_target_ids(&self, other: &Self) -> (r: Ordering)
        ensures
            (r == Ordering::Less) == target_ids_lt(target_ids(*self), target_ids(*other)),
            (r == Ordering::Equal) == (target_ids(*self) == target_ids(*other)),
            (r == Ordering::Greater) == target_ids_lt(target_ids(*other), target_ids(*self)),
    {
        match order_pids(self.pid, other.pid) {
            Ordering::Equal => match order_parts(self.part, other.part) {
                Ordering::Equal => order_threads(self.thread, other.thread),
                r => r,
            },
            r => r,
        }
    }
}

/// `a` comes before `b` by target ids
fn comes_before(a: &CallgrindProperties, b: &CallgrindProperties) -> (r: bool)
    ensures
        r == target_ids_lt(target_ids(*a), target_ids(*b)),
{
    match a.compare_target_ids(b) {
        Ordering::Less => true,
        _ => false,
    }
}

/// The outputs are sorted by the target ids of their properties.
pub open spec fn sorted_by_target_ids<T>(s: Seq<(String, CallgrindProperties, T)>) -> bool {
    forall|i: int, j: int|
        0 <= i < j < s.len() ==> !target_ids_lt(target_ids(#[trigger] s[j].1), target_ids(
            #[trigger] s[i].1,
        ))
}

/// `p` is the index of the first output of `s` that does not come before `x` by target ids,
/// or the length of `s` if all come before it.
pub open spec fn first_not_before<T>(
    s: Seq<(String, CallgrindProperties, T)>,
    x: (String, CallgrindProperties, T),
    p: int,
) -> bool {
    &&& 0 <= p <= s.len()
    &&& forall|j: int| 0 <= j < p ==> target_ids_lt(target_ids(#[trigger] s[j].1), target_ids(x.1))
    &&& p < s.len() ==> !target_ids_lt(target_ids(s[p].1), target_ids(x.1))
}

/// Insert a parsed output (its path, properties and contents) before the first output that
/// does not come before it by target ids; outputs sorted by target ids stay sorted.
pub fn insert_by_target_ids<T>(
    results: &mut Vec<(String, CallgrindProperties, T)>,
    parsed: (String, CallgrindProperties, T),
)
    ensures
        exists|p: int|
            first_not_before(old(results)@, parsed, p) && final(results)@ == old(results)@.insert(
                p,
                parsed,
            ),
        sorted_by_target_ids(old(results)@) ==> sorted_by_target_ids(final(results)@),
{
    let ghost s = results@;
    let mut p: usize = 0;
    while p < results.len() && comes_before(&results[p].1, &parsed.1)
        invariant
            results@ == s,
            p <= s.len(),
            forall|j: int| 0 <= j < p ==> target_ids_lt(target_ids(#[trigger] s[j].1), target_ids(parsed.1)),
        decreases s.len() - p,
    {
        p += 1;
    }
    results.insert(p, parsed);
    assert(first_not_before(s, parsed, p as int));
    proof {
        if sorted_by_target_ids(s) {
            lemma_insert_sorted(s, parsed, p as int);
        }
    }
}

/// The parsed outputs (path, properties and contents) sorted by their target ids: each is
/// inserted in turn before the first output that does not come before it, so outputs of equal
/// target ids end in the reverse of their order in `outputs`.
pub fn sort_by_target_ids<T>(outputs: Vec<(String, CallgrindProperties, T)>) -> (r: Vec<
    (String, CallgrindProperties, T),
>)
    ensures
        sorted_by_target_ids(r@),
        r@.to_multiset() == outputs@.to_multiset(),
{
    let ghost all = outputs@;
    let mut rest = outputs;
    let mut results: Vec<(String, CallgrindProperties, T)> = Vec::new();
    let ghost mut done: int = 0;
    assert(all.take(0) =~= Seq::<(String, CallgrindProperties, T)>::empty());
    assert(all.skip(0) =~= all);
    while rest.len() > 0
        invariant
            0 <= done <= all.len(),
            rest@ == all.skip(done),
            sorted_by_target_ids(results@),
            results@.to_multiset() == all.take(done).to_multiset(),
        decreases rest.len(),
    {
        let ghost before = results@;
        let x = rest.remove(0);
        assert(x == all[done]);
        insert_by_target_ids(&mut results, x);
        proof {
            let p = choose|p: int| first_not_before(before, x, p) && results@ == before.insert(p, x);
            vstd::seq_lib::to_multiset_insert(before, p, x);
            assert(all.take(done + 1) =~= all.take(done).push(x));
            vstd::seq_lib::to_multiset_build(all.take(done), x);
            done = done + 1;
            assert(rest@ =~= all.skip(done));
        }
    }
    assert(all.take(done) =~= all);
    results
}

/// Inserting before the first output that does not come before keeps outputs sorted.
proof fn lemma_insert_sorted<T>(
    s: Seq<(String, CallgrindProperties, T)>,
    x: (String, CallgrindProperties, T),
    p: int,
)
    requires
        sorted_by_target_ids(s),
        first_not_before(s, x, p),
    ensures
        sorted_by_target_ids(s.insert(p, x)),
{
    assert forall|j: int| p <= j < s.len() implies !target_ids_lt(
        target_ids(#[trigger] s[j].1),
        target_ids(x.1),
    ) by {
        if p < j {
            assert(!target_ids_lt(target_ids(s[j].1), target_ids(s[p].1)));
        }
    }
    let n = s.insert(p, x);
    assert forall|i: int, j: int| 0 <= i < j < n.len() implies !target_ids_lt(
        target_ids(#[trigger] n[j].1),
        target_ids(#[trigger] n[i].1),
    ) by {
        if j < p {
            assert(n[i] == s[i] && n[j] == s[j]);
        } else if j == p {
            assert(n[i] == s[i]);
        } else if i == p {
            assert(n[j] == s[j - 1]);
        } else if i < p {
            assert(n[i] == s[i] && n[j] == s[j - 1]);
        } else {
            assert(n[i] == s[i - 1] && n[j] == s[j - 1]);
        }
    }
}

} // verus!
