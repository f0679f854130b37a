//! The order of the stack entries of a flamegraph: by cost, highest first, then by name, and a
//! sort by that order.
use vstd::prelude::*;
use vstd::relations::{sorted_by, total_ordering};

verus! {

/// `a` comes before or equals `b` in the lexicographic order of characters.
pub open spec fn lex_le(a: Seq<char>, b: Seq<char>) -> bool
    decreases a.len(),
{
    if a.len() == 0 {
        true
    } else if b.len() == 0 {
        false
    } else if a[0] != b[0] {
        a[0] < b[0]
    } else {
        lex_le(a.drop_first(), b.drop_first())
    }
}

proof fn lemma_lex_refl(a: Seq<char>)
    ensures
        lex_le(a, a),
    decreases a.len(),
{
    if a.len() > 0 {
        lemma_lex_refl(a.drop_first());
    }
}

proof fn lemma_lex_antisym(a: Seq<char>, b: Seq<char>)
    requires
        lex_le(a, b),
        lex_le(b, a),
    ensures
        a == b,
    decreases a.len(),
{
    if a.len() > 0 && b.len() > 0 {
        if a[0] == b[0] {
            lemma_lex_antisym(a.drop_first(), b.drop_first());
            assert(a =~= seq![a[0]] + a.drop_first());
            assert(b =~= seq![b[0]] + b.drop_first());
        }
    } else {
        assert(a =~= b);
    }
}

proof fn lemma_lex_trans(a: Seq<char>, b: Seq<char>, c: Seq<char>)
    requires
        lex_le(a, b),
        lex_le(b, c),
    ensures
        lex_le(a, c),
    decreases a.len(),
{
    if a.len() > 0 && b.len() > 0 && c.len() > 0 {
        if a[0] == b[0] && b[0] == c[0] {
            lemma_lex_trans(a.drop_first(), b.drop_first(), c.drop_first());
        }
    }
}

proof fn lemma_lex_total(a: Seq<char>, b: Seq<char>)
    ensures
        lex_le(a, b) || lex_le(b, a),
    decreases a.len(),
{
    if a.len() > 0 && b.len() > 0 && a[0] == b[0] {
        lemma_lex_total(a.drop_first(), b.drop_first());
    }
}

/// An entry of a flamegraph stack: the name and the cost.
pub type StackItem = (Seq<char>, u64);

/// The order of stack entries: the higher cost first; at equal cost by name.
pub open spec fn item_le(x: StackItem, y: StackItem) -> bool {
    x.1 > y.1 || (x.1 == y.1 && lex_le(x.0, y.0))
}

/// The order of stack entries as a relation.
pub open spec fn item_order() -> spec_fn(StackItem, StackItem) -> bool {
    |x: StackItem, y: StackItem| item_le(x, y)
}

/// The order of stack entries is a total order.
pub proof fn lemma_item_order_total()
    ensures
        total_ordering(item_order()),
{
    assert forall|x: StackItem| #[trigger] item_order()(x, x) by {
        lemma_lex_refl(x.0);
    }
    assert forall|x: StackItem, y: StackItem| #[trigger] item_order()(x, y) && #[trigger] item_order()(y, x) implies x == y by {
        lemma_lex_antisym(x.0, y.0);
    }
    assert forall|x: StackItem, y: StackItem, z: StackItem| #[trigger] item_order()(x, y) && #[trigger] item_order()(y, z) implies item_order()(x, z) by {
        if x.1 == y.1 && y.1 == z.1 {
            lemma_lex_trans(x.0, y.0, z.0);
        }
    }
    assert forall|x: StackItem, y: StackItem| #[trigger] item_order()(x, y) || #[trigger] item_order()(y, x) by {
        lemma_lex_total(x.0, y.0);
    }
}

/// `a` comes before or equals `b` in the lexicographic order of characters
pub fn lex_le_exec(a: &Vec<char>, b: &Vec<char>) -> (r: bool)
    ensures
        r == lex_le(a@, b@),
{
    let mut i: usize = 0;
    assert(a@.skip(0) =~= a@);
    assert(b@.skip(0) =~= b@);
    while i < a.len() && i < b.len() && a[i] == b[i]
        invariant
            0 <= i <= a.len(),
            i <= b.len(),
            forall|j: int| 0 <= j < i ==> a@[j] == b@[j],
            lex_le(a@.skip(i as int), b@.skip(i as int)) == lex_le(a@, b@),
        decreases a.len() - i,
    {
        assert(a@.skip(i as int).drop_first() =~= a@.skip(i + 1));
        assert(b@.skip(i as int).drop_first() =~= b@.skip(i + 1));
        i += 1;
    }
    if i == a.len() {
        true
    } else if i == b.len() {
        false
    } else {
        assert(a@.skip(i as int)[0] == a@[i as int]);
        assert(b@.skip(i as int)[0] == b@[i as int]);
        a[i] < b[i]
    }
}

/// The view of stack entries.
pub open spec fn items_view(v: Seq<(Vec<char>, u64)>) -> Seq<StackItem> {
    v.map_values(|e: (Vec<char>, u64)| (e.0@, e.1))
}

/// Sort stack entries: the highest cost first, at equal cost by name
pub fn sort_items(items: Vec<(Vec<char>, u64)>) -> (r: Vec<(Vec<char>, u64)>)
    ensures
        items_view(r@) == items_view(items@).sort_by(item_order()),
{
    let ghost input = items_view(items@);
    let mut out: Vec<(Vec<char>, u64)> = Vec::new();
    let mut rest = items;
    let ghost mut done: int = 0;
    proof {
        lemma_item_order_total();
        assert(input.take(0) =~= Seq::<StackItem>::empty());
        assert(items_view(out@) =~= Seq::<StackItem>::empty());
        assert(items_view(rest@) =~= input.skip(0));
    }
    while rest.len() > 0
        invariant
            0 <= done <= input.len(),
            rest.len() == input.len() - done,
            items_view(rest@) == input.skip(done),
            total_ordering(item_order()),
            sorted_by(items_view(out@), item_order()),
            items_view(out@).to_multiset() == input.take(done).to_multiset(),
        decreases rest.len(),
    {
        let ghost before_rest = rest@;
        let x = rest.remove(0);
        assert(items_view(before_rest)[0] == (x.0@, x.1));
        assert(input.skip(done)[0] == input[done]);
        let ghost xv = (x.0@, x.1);
        assert(xv == input[done]);
        let mut pos: usize = 0;
        while pos < out.len() && item_le_exec(&out[pos], &x)
            invariant
                0 <= pos <= out.len(),
                xv == (x.0@, x.1),
                forall|j: int| 0 <= j < pos ==> item_le(#[trigger] items_view(out@)[j], xv),
            decreases out.len() - pos,
        {
            assert(items_view(out@)[pos as int] == (out@[pos as int].0@, out@[pos as int].1));
            pos += 1;
        }
        let ghost before_out = items_view(out@);
        out.insert(pos, x);
        proof {
            let ov = items_view(out@);
            assert(ov =~= before_out.insert(pos as int, xv));
            assert forall|a: int, b: int| 0 <= a < b < ov.len() implies #[trigger] item_order()(ov[a], ov[b]) by {
                if b < pos {
                    assert(item_order()(before_out[a], before_out[b]));
                } else if b == pos {
                    assert(item_le(before_out[a], xv));
                } else if a < pos {
                    assert(item_order()(before_out[a], before_out[b - 1]));
                } else if a == pos {
                    if pos < before_out.len() {
                        assert(!item_le(before_out[pos as int], xv));
                        assert(item_order()(xv, before_out[pos as int]) || item_order()(before_out[pos as int], xv));
                        if b - 1 > pos {
                            assert(item_order()(before_out[pos as int], before_out[b - 1]));
                        }
                    }
                } else {
                    assert(item_order()(before_out[a - 1], before_out[b - 1]));
                }
            }
            vstd::seq_lib::to_multiset_insert(before_out, pos as int, xv);
            assert(input.take(done + 1) =~= input.take(done).push(xv));
            vstd::seq_lib::to_multiset_build(input.take(done), xv);
            assert(before_out.to_multiset().insert(xv) == input.take(done).to_multiset().insert(xv));
            done = done + 1;
            assert(items_view(rest@) =~= input.skip(done)) by {
                assert forall|k: int| 0 <= k < rest@.len() implies items_view(rest@)[k] == input.skip(done)[k] by {
                    assert(rest@[k] == before_rest[k + 1]);
                    assert(items_view(before_rest)[k + 1] == input.skip(done - 1)[k + 1]);
                }
            }
        }
    }
    proof {
        assert(input.take(done) =~= input);
        input.lemma_sort_by_ensures(item_order());
        vstd::seq_lib::lemma_sorted_unique(items_view(out@), input.sort_by(item_order()), item_order());
    }
    out
}

/// The order of stack entries
fn item_le_exec(a: &(Vec<char>, u64), b: &(Vec<char>, u64)) -> (r: bool)
    ensures
        r == item_le((a.0@, a.1), (b.0@, b.1)),
{
    a.1 > b.1 || (a.1 == b.1 && lex_le_exec(&a.0, &b.0))
}

} // verus!
