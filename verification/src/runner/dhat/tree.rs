//! The prefix tree of the program points of a DHAT run.
//!
//! Every node holds a run of frame indices (its prefix) and the data of all program points
//! whose frames pass through the node. The root aggregates the data of every program point.
use vstd::prelude::*;


use crate::api::DhatMetricKind;
use crate::api::EntryPoint;
use crate::pattern::{is_match, regex_is_match, Pattern};
use crate::runner::dhat::model::{DhatData, Frame, ProgramPoint};

verus! {

/// The value of an optional counter where an absent counter counts as zero.
pub open spec fn opt_val(x: Option<u64>) -> int {
    match x {
        Some(v) => v as int,
        None => 0,
    }
}

/// The value of an optional wide counter where an absent counter counts as zero.
pub open spec fn opt_val_wide(x: Option<u128>) -> int {
    match x {
        Some(v) => v as int,
        None => 0,
    }
}

/// The sum of two optional counters: absent only if both are absent.
pub open spec fn opt_sum(a: Option<u64>, b: Option<u64>) -> Option<u64> {
    match (a, b) {
        (None, None) => None,
        (None, Some(y)) => Some(y),
        (Some(x), None) => Some(x),
        (Some(x), Some(y)) => Some((x + y) as u64),
    }
}

/// The sum of two optional wide counters: absent only if both are absent.
pub open spec fn opt_sum_wide(a: Option<u128>, b: Option<u128>) -> Option<u128> {
    match (a, b) {
        (None, None) => None,
        (None, Some(y)) => Some(y),
        (Some(x), None) => Some(x),
        (Some(x), Some(y)) => Some((x + y) as u128),
    }
}

/// Add two optional counters; absent only if both are absent.
fn sum_options(lhs: Option<u64>, rhs: Option<u64>) -> (r: Option<u64>)
    requires
        opt_val(lhs) + opt_val(rhs) <= u64::MAX,
    ensures
        r == opt_sum(lhs, rhs),
        opt_val(r) == opt_val(lhs) + opt_val(rhs),
{
    match (lhs, rhs) {
        (None, None) => None,
        (None, Some(b)) => Some(b),
        (Some(a), None) => Some(a),
        (Some(a), Some(b)) => Some(a + b),
    }
}

/// Add two optional wide counters; absent only if both are absent.
fn sum_options_wide(lhs: Option<u128>, rhs: Option<u128>) -> (r: Option<u128>)
    requires
        opt_val_wide(lhs) + opt_val_wide(rhs) <= u128::MAX,
    ensures
        r == opt_sum_wide(lhs, rhs),
        opt_val_wide(r) == opt_val_wide(lhs) + opt_val_wide(rhs),
{
    match (lhs, rhs) {
        (None, None) => None,
        (None, Some(b)) => Some(b),
        (Some(a), None) => Some(a),
        (Some(a), Some(b)) => Some(a + b),
    }
}

/// The data of a node: the counters of a DHAT program point, summed.
#[derive(Debug, Clone, Copy, PartialEq, Eq)]
pub struct Data {
    pub total_bytes: u64,
    pub total_blocks: u64,
    pub total_lifetimes: Option<u128>,
    pub maximum_bytes: Option<u64>,
    pub maximum_blocks: Option<u64>,
    pub bytes_at_max: Option<u64>,
    pub blocks_at_max: Option<u64>,
    pub bytes_at_end: Option<u64>,
    pub blocks_at_end: Option<u64>,
    pub blocks_read: Option<u64>,
    pub blocks_write: Option<u64>,
}

impl Default for Data {
    fn default() -> (r: Data)
        ensures
            r == Data::empty_spec(),
    {
        Data {
            total_bytes: 0,
            total_blocks: 0,
            total_lifetimes: None,
            maximum_bytes: None,
            maximum_blocks: None,
            bytes_at_max: None,
            blocks_at_max: None,
            bytes_at_end: None,
            blocks_at_end: None,
            blocks_read: None,
            blocks_write: None,
        }
    }
}

impl Data {
    /// Zero totals and no optional counter.
    pub open spec fn empty_spec() -> Data {
        Data {
            total_bytes: 0,
            total_blocks: 0,
            total_lifetimes: None,
            maximum_bytes: None,
            maximum_blocks: None,
            bytes_at_max: None,
            blocks_at_max: None,
            bytes_at_end: None,
            blocks_at_end: None,
            blocks_read: None,
            blocks_write: None,
        }
    }

    /// Every counter present and zero.
    pub open spec fn zero_spec() -> Data {
        Data {
            total_bytes: 0,
            total_blocks: 0,
            total_lifetimes: Some(0),
            maximum_bytes: Some(0),
            maximum_blocks: Some(0),
            bytes_at_max: Some(0),
            blocks_at_max: Some(0),
            bytes_at_end: Some(0),
            blocks_at_end: Some(0),
            blocks_read: Some(0),
            blocks_write: Some(0),
        }
    }

    /// The counters of `self` and `other` can be added without overflow.
    pub open spec fn addable(self, other: Data) -> bool {
        &&& self.total_bytes + other.total_bytes <= u64::MAX
        &&& self.total_blocks + other.total_blocks <= u64::MAX
        &&& opt_val_wide(self.total_lifetimes) + opt_val_wide(other.total_lifetimes) <= u128::MAX
        &&& opt_val(self.maximum_bytes) + opt_val(other.maximum_bytes) <= u64::MAX
        &&& opt_val(self.maximum_blocks) + opt_val(other.maximum_blocks) <= u64::MAX
        &&& opt_val(self.bytes_at_max) + opt_val(other.bytes_at_max) <= u64::MAX
        &&& opt_val(self.blocks_at_max) + opt_val(other.blocks_at_max) <= u64::MAX
        &&& opt_val(self.bytes_at_end) + opt_val(other.bytes_at_end) <= u64::MAX
        &&& opt_val(self.blocks_at_end) + opt_val(other.blocks_at_end) <= u64::MAX
        &&& opt_val(self.blocks_read) + opt_val(other.blocks_read) <= u64::MAX
        &&& opt_val(self.blocks_write) + opt_val(other.blocks_write) <= u64::MAX
    }

    /// The counters of `self` and `other` added one by one.
    pub open spec fn add_spec(self, other: Data) -> Data {
        Data {
            total_bytes: (self.total_bytes + other.total_bytes) as u64,
            total_blocks: (self.total_blocks + other.total_blocks) as u64,
            total_lifetimes: opt_sum_wide(self.total_lifetimes, other.total_lifetimes),
            maximum_bytes: opt_sum(self.maximum_bytes, other.maximum_bytes),
            maximum_blocks: opt_sum(self.maximum_blocks, other.maximum_blocks),
            bytes_at_max: opt_sum(self.bytes_at_max, other.bytes_at_max),
            blocks_at_max: opt_sum(self.blocks_at_max, other.blocks_at_max),
            bytes_at_end: opt_sum(self.bytes_at_end, other.bytes_at_end),
            blocks_at_end: opt_sum(self.blocks_at_end, other.blocks_at_end),
            blocks_read: opt_sum(self.blocks_read, other.blocks_read),
            blocks_write: opt_sum(self.blocks_write, other.blocks_write),
        }
    }

    /// Every counter of `self` is at most the counter of `other` (absent counts as zero).
    pub open spec fn le(self, other: Data) -> bool {
        &&& self.total_bytes <= other.total_bytes
        &&& self.total_blocks <= other.total_blocks
        &&& opt_val_wide(self.total_lifetimes) <= opt_val_wide(other.total_lifetimes)
        &&& opt_val(self.maximum_bytes) <= opt_val(other.maximum_bytes)
        &&& opt_val(self.maximum_blocks) <= opt_val(other.maximum_blocks)
        &&& opt_val(self.bytes_at_max) <= opt_val(other.bytes_at_max)
        &&& opt_val(self.blocks_at_max) <= opt_val(other.blocks_at_max)
        &&& opt_val(self.bytes_at_end) <= opt_val(other.bytes_at_end)
        &&& opt_val(self.blocks_at_end) <= opt_val(other.blocks_at_end)
        &&& opt_val(self.blocks_read) <= opt_val(other.blocks_read)
        &&& opt_val(self.blocks_write) <= opt_val(other.blocks_write)
    }

    /// The data with every counter present and zero
    pub fn zero() -> (r: Data)
        ensures
            r == Data::zero_spec(),
    {
        Data {
            total_bytes: 0,
            total_blocks: 0,
            total_lifetimes: Some(0),
            maximum_bytes: Some(0),
            maximum_blocks: Some(0),
            bytes_at_max: Some(0),
            blocks_at_max: Some(0),
            bytes_at_end: Some(0),
            blocks_at_end: Some(0),
            blocks_read: Some(0),
            blocks_write: Some(0),
        }
    }

    /// Add the counters of `other` to these
    pub fn add(&mut self, other: &Data)
        requires
            old(self).addable(*other),
        ensures
            *final(self) == old(self).add_spec(*other),
    {
        self.total_bytes = self.total_bytes + other.total_bytes;
        self.total_blocks = self.total_blocks + other.total_blocks;
        self.total_lifetimes = sum_options_wide(self.total_lifetimes, other.total_lifetimes);
        self.maximum_bytes = sum_options(self.maximum_bytes, other.maximum_bytes);
        self.maximum_blocks = sum_options(self.maximum_blocks, other.maximum_blocks);
        self.bytes_at_max = sum_options(self.bytes_at_max, other.bytes_at_max);
        self.blocks_at_max = sum_options(self.blocks_at_max, other.blocks_at_max);
        self.bytes_at_end = sum_options(self.bytes_at_end, other.bytes_at_end);
        self.blocks_at_end = sum_options(self.blocks_at_end, other.blocks_at_end);
        self.blocks_read = sum_options(self.blocks_read, other.blocks_read);
        self.blocks_write = sum_options(self.blocks_write, other.blocks_write);
    }

    /// The counters of a program point
    pub open spec fn from_spec(value: ProgramPoint) -> Data {
        Data {
            total_bytes: value.total_bytes,
            total_blocks: value.total_blocks,
            total_lifetimes: value.total_lifetimes,
            maximum_bytes: value.maximum_bytes,
            maximum_blocks: value.maximum_blocks,
            bytes_at_max: value.bytes_at_max,
            blocks_at_max: value.blocks_at_max,
            bytes_at_end: value.bytes_at_end,
            blocks_at_end: value.blocks_at_end,
            blocks_read: value.blocks_read,
            blocks_write: value.blocks_write,
        }
    }

    /// The data of a program point
    pub fn from(value: &ProgramPoint) -> (r: Data)
        ensures
            r == Data::from_spec(*value),
    {
        Data {
            total_bytes: value.total_bytes,
            total_blocks: value.total_blocks,
            total_lifetimes: value.total_lifetimes,
            maximum_bytes: value.maximum_bytes,
            maximum_blocks: value.maximum_blocks,
            bytes_at_max: value.bytes_at_max,
            blocks_at_max: value.blocks_at_max,
            bytes_at_end: value.bytes_at_end,
            blocks_at_end: value.blocks_at_end,
            blocks_read: value.blocks_read,
            blocks_write: value.blocks_write,
        }
    }
}

/// The value of a sum of optional counters is the sum of their values.
proof fn lemma_opt_sum(x: Option<u64>, y: Option<u64>)
    requires
        opt_val(x) + opt_val(y) <= u64::MAX,
    ensures
        opt_val(opt_sum(x, y)) == opt_val(x) + opt_val(y),
{
}

/// The value of a sum of optional wide counters is the sum of their values.
proof fn lemma_opt_sum_wide(x: Option<u128>, y: Option<u128>)
    requires
        opt_val_wide(x) + opt_val_wide(y) <= u128::MAX,
    ensures
        opt_val_wide(opt_sum_wide(x, y)) == opt_val_wide(x) + opt_val_wide(y),
{
}

/// The counters of a sum are the sums of the counters.
proof fn lemma_add_values(a: Data, d: Data)
    requires
        a.addable(d),
    ensures
        opt_val_wide(a.add_spec(d).total_lifetimes) == opt_val_wide(a.total_lifetimes)
            + opt_val_wide(d.total_lifetimes),
        opt_val(a.add_spec(d).maximum_bytes) == opt_val(a.maximum_bytes) + opt_val(d.maximum_bytes),
        opt_val(a.add_spec(d).maximum_blocks) == opt_val(a.maximum_blocks) + opt_val(
            d.maximum_blocks,
        ),
        opt_val(a.add_spec(d).bytes_at_max) == opt_val(a.bytes_at_max) + opt_val(d.bytes_at_max),
        opt_val(a.add_spec(d).blocks_at_max) == opt_val(a.blocks_at_max) + opt_val(d.blocks_at_max),
        opt_val(a.add_spec(d).bytes_at_end) == opt_val(a.bytes_at_end) + opt_val(d.bytes_at_end),
        opt_val(a.add_spec(d).blocks_at_end) == opt_val(a.blocks_at_end) + opt_val(d.blocks_at_end),
        opt_val(a.add_spec(d).blocks_read) == opt_val(a.blocks_read) + opt_val(d.blocks_read),
        opt_val(a.add_spec(d).blocks_write) == opt_val(a.blocks_write) + opt_val(d.blocks_write),
{
    lemma_opt_sum_wide(a.total_lifetimes, d.total_lifetimes);
    lemma_opt_sum(a.maximum_bytes, d.maximum_bytes);
    lemma_opt_sum(a.maximum_blocks, d.maximum_blocks);
    lemma_opt_sum(a.bytes_at_max, d.bytes_at_max);
    lemma_opt_sum(a.blocks_at_max, d.blocks_at_max);
    lemma_opt_sum(a.bytes_at_end, d.bytes_at_end);
    lemma_opt_sum(a.blocks_at_end, d.blocks_at_end);
    lemma_opt_sum(a.blocks_read, d.blocks_read);
    lemma_opt_sum(a.blocks_write, d.blocks_write);
}

/// Adding to both sides keeps the order, and a sum is at least each of its parts.
pub proof fn lemma_data_add_monotone(a: Data, b: Data, d: Data)
    requires
        a.le(b),
        b.addable(d),
    ensures
        a.addable(d),
        a.add_spec(d).le(b.add_spec(d)),
        a.le(b.add_spec(d)),
        d.le(b.add_spec(d)),
{
    assert(a.addable(d));
    lemma_add_values(a, d);
    lemma_add_values(b, d);
}

/// The order on data is transitive.
pub proof fn lemma_data_le_trans(a: Data, b: Data, c: Data)
    requires
        a.le(b),
        b.le(c),
    ensures
        a.le(c),
{
}

/// The order on data is reflexive.
pub proof fn lemma_data_le_refl(a: Data)
    ensures
        a.le(a),
{
}

/// A node of the prefix tree
#[derive(Debug, PartialEq, Eq)]
pub struct Node {
    /// The run of frame indices of this node
    pub prefix: Vec<usize>,
    /// The child nodes
    pub children: Vec<Node>,
    /// The summed data of the program points passing through this node
    pub data: Data,
}

/// `p` begins with `q`.
pub open spec fn is_prefix_of(q: Seq<usize>, p: Seq<usize>) -> bool {
    q.len() <= p.len() && p.subrange(0, q.len() as int) == q
}

impl Node {
    /// The child `i` starts with the frame index `key`.
    pub open spec fn child_starts_with(self, i: int, key: usize) -> bool {
        self.children[i].prefix@.len() > 0 && self.children[i].prefix@[0] == key
    }

    /// The node invariant: every child has a non-empty prefix, no two children start with the
    /// same frame index, the data of a child is at most that of its parent, and the children
    /// keep the invariant.
    pub open spec fn wf(self) -> bool
        decreases self,
    {
        &&& forall|i: int| 0 <= i < self.children.len() ==> #[trigger] self.children[i].prefix@.len() > 0
        &&& forall|i: int, j: int|
            0 <= i < self.children.len() && 0 <= j < self.children.len() && i != j
                ==> #[trigger] self.children[i].prefix@[0] != #[trigger] self.children[j].prefix@[0]
        &&& forall|i: int| 0 <= i < self.children.len() ==> (#[trigger] self.children[i]).data.le(self.data)
        &&& forall|i: int| 0 <= i < self.children.len() ==> (#[trigger] self.children[i]).wf()
    }

    /// Following the prefixes of the children from this node, `p` ends exactly at a node.
    pub open spec fn has_path(self, p: Seq<usize>) -> bool
        decreases self, p.len(),
    {
        if p.len() == 0 {
            true
        } else {
            exists|i: int|
                0 <= i < self.children.len() && #[trigger] is_prefix_of(self.children[i].prefix@, p)
                    && self.children[i].prefix@.len() > 0 && self.children[i].has_path(
                    p.skip(self.children[i].prefix@.len() as int),
                )
        }
    }

    /// Create a new node
    pub fn new(prefix: Vec<usize>, children: Vec<Node>, data: Data) -> (r: Node)
        ensures
            r.prefix == prefix,
            r.children == children,
            r.data == data,
    {
        Node { prefix, children, data }
    }

    /// Create a node with the given prefix, no children and empty data
    pub fn with_prefix(prefix: Vec<usize>) -> (r: Node)
        ensures
            r.prefix == prefix,
            r.children@ == Seq::<Node>::empty(),
            r.data == Data::empty_spec(),
            r.wf(),
    {
        Node { prefix, children: Vec::new(), data: Data::default() }
    }

    /// Append a leaf with the frames `prefix[from..]` and `data`
    fn add_child(&mut self, prefix: &Vec<usize>, from: usize, data: &Data)
        requires
            from <= prefix.len(),
        ensures
            final(self).prefix == old(self).prefix,
            final(self).data == old(self).data,
            final(self).children@.len() == old(self).children@.len() + 1,
            final(self).children@.drop_last() == old(self).children@,
            final(self).children@.last().prefix@ == prefix@.skip(from as int),
            final(self).children@.last().children@.len() == 0,
            final(self).children@.last().data == *data,
    {
        let mut rest: Vec<usize> = Vec::new();
        let mut i: usize = from;
        while i < prefix.len()
            invariant
                from <= i <= prefix.len(),
                rest@ == prefix@.subrange(from as int, i as int),
            decreases prefix.len() - i,
        {
            rest.push(prefix[i]);
            i += 1;
        }
        assert(rest@ =~= prefix@.skip(from as int));
        let ghost before = self.children@;
        self.children.push(Node::new(rest, Vec::new(), *data));
        assert(self.children@.drop_last() =~= before);
    }

    /// The position of the child whose prefix starts with `num`
    fn find_child(&self, num: usize) -> (r: Option<usize>)
        ensures
            r matches Some(i) ==> i < self.children.len() && self.child_starts_with(i as int, num),
            r is None ==> forall|i: int|
                0 <= i < self.children.len() ==> !#[trigger] self.child_starts_with(i, num),
    {
        let mut i: usize = 0;
        while i < self.children.len()
            invariant
                0 <= i <= self.children.len(),
                forall|j: int| 0 <= j < i ==> !#[trigger] self.child_starts_with(j, num),
            decreases self.children.len() - i,
        {
            let child = &self.children[i];
            if child.prefix.len() > 0 && child.prefix[0] == num {
                return Some(i);
            }
            i += 1;
        }
        None
    }

    /// Split this node after `index` frames: the rest of the prefix moves into a new child that
    /// takes over the children and the data, and this node adds `data`.
    fn split(&mut self, index: usize, data: &Data)
        requires
            0 < index < old(self).prefix.len(),
            old(self).wf(),
            old(self).data.addable(*data),
        ensures
            final(self).prefix@ == old(self).prefix@.subrange(0, index as int),
            final(self).data == old(self).data.add_spec(*data),
            final(self).children@.len() == 1,
            final(self).children@[0].prefix@ == old(self).prefix@.skip(index as int),
            final(self).children@[0].children == old(self).children,
            final(self).children@[0].data == old(self).data,
            final(self).wf(),
    {
        let ghost old_self = *self;
        let tail = self.prefix.split_off(index);
        let mut children: Vec<Node> = Vec::new();
        std::mem::swap(&mut children, &mut self.children);
        let node = Node::new(tail, children, self.data);
        self.data.add(data);
        self.children.push(node);
        proof {
            assert(self.children@[0] == node);
            assert(node.wf()) by {
                assert(node.children == old_self.children);
                assert(old_self.wf());
            }
            lemma_data_add_monotone(old_self.data, old_self.data, *data);
            lemma_data_le_refl(old_self.data);
            assert(node.prefix@ =~= old_self.prefix@.skip(index as int));
        }
    }

    /// The first position where `self.prefix` and `other[from..]` differ, within their common
    /// length
    fn split_index(&self, other: &Vec<usize>, from: usize) -> (r: Option<usize>)
        requires
            from <= other.len(),
        ensures
            r matches Some(k) ==> k < self.prefix.len() && from + k < other.len() && self.prefix@[k as int] != other@[from + k]
                && forall|j: int| 0 <= j < k ==> self.prefix@[j] == other@[from + j],
            r is None ==> forall|j: int|
                0 <= j < self.prefix.len() && from + j < other.len() ==> self.prefix@[j] == other@[from + j],
    {
        let rest = other.len() - from;
        let length = if self.prefix.len() < rest {
            self.prefix.len()
        } else {
            rest
        };
        let mut k: usize = 0;
        while k < length
            invariant
                0 <= k <= length,
                length <= self.prefix.len(),
                from + length <= other.len(),
                length == self.prefix.len() || from + length == other.len(),
                forall|j: int| 0 <= j < k ==> self.prefix@[j] == other@[from + j],
            decreases length - k,
        {
            if self.prefix[k] != other[from + k] {
                return Some(k);
            }
            k += 1;
        }
        None
    }

    /// Add `data` to the data of this node
    fn add_data(&mut self, data: &Data)
        requires
            old(self).data.addable(*data),
        ensures
            final(self).prefix == old(self).prefix,
            final(self).children == old(self).children,
            final(self).data == old(self).data.add_spec(*data),
    {
        self.data.add(data);
    }
}

/// The first index below the common length of `a` and `b` where they differ.
pub open spec fn mismatch(a: Seq<usize>, b: Seq<usize>) -> Option<int> {
    if exists|k: int| 0 <= k < a.len() && k < b.len() && a[k] != b[k] {
        Some(
            choose|k: int|
                0 <= k < a.len() && k < b.len() && a[k] != b[k] && forall|j: int|
                    0 <= j < k ==> a[j] == b[j],
        )
    } else {
        None
    }
}

/// `news` are the children `olds` after the path `p` was inserted below their parent with
/// `d`: the child whose prefix starts with the first frame of `p` takes the path, or, where
/// there is none, a new leaf with the whole path and `d` is appended. An empty path changes
/// nothing.
#[verifier::opaque]
pub open spec fn children_after(olds: Seq<Node>, news: Seq<Node>, p: Seq<usize>, d: Data) -> bool
    decreases p.len(), 1int,
{
    if p.len() == 0 {
        news == olds
    } else if exists|i: int|
        0 <= i < olds.len() && (#[trigger] olds[i]).prefix@.len() > 0 && olds[i].prefix@[0] == p[0] {
        let i = choose|i: int|
            0 <= i < olds.len() && (#[trigger] olds[i]).prefix@.len() > 0 && olds[i].prefix@[0]
                == p[0];
        &&& news.len() == olds.len()
        &&& forall|j: int| 0 <= j < olds.len() && j != i ==> news[j] == olds[j]
        &&& child_after(olds[i], news[i], p, d)
    } else {
        &&& news.len() == olds.len() + 1
        &&& news.drop_last() == olds
        &&& news.last().prefix@ == p
        &&& news.last().children@.len() == 0
        &&& news.last().data == d
    }
}

/// `n` is the child `c`, whose prefix starts the path `p`, after `p` was inserted with `d`:
/// every node on the path adds `d`. Where the path leaves the prefix of `c`, `c` is split
/// there: the common part keeps the data plus `d` with two children, the rest of `c` (its
/// children and its data) and a new leaf with the rest of the path and `d`. Where the path
/// ends inside the prefix, `c` is split at its end. Where the path passes the whole prefix,
/// `c` adds `d` and the rest of the path goes below it.
#[verifier::opaque]
pub open spec fn child_after(c: Node, n: Node, p: Seq<usize>, d: Data) -> bool
    decreases p.len(), 0int,
{
    let cl = c.prefix@.len();
    match mismatch(c.prefix@, p) {
        Some(si) => {
            &&& n.prefix@ == c.prefix@.take(si)
            &&& n.data == c.data.add_spec(d)
            &&& n.children@.len() == 2
            &&& n.children@[0].prefix@ == c.prefix@.skip(si)
            &&& n.children@[0].children == c.children
            &&& n.children@[0].data == c.data
            &&& n.children@[1].prefix@ == p.skip(si)
            &&& n.children@[1].children@.len() == 0
            &&& n.children@[1].data == d
        },
        None => if p.len() < cl {
            &&& n.prefix@ == p
            &&& n.data == c.data.add_spec(d)
            &&& n.children@.len() == 1
            &&& n.children@[0].prefix@ == c.prefix@.skip(p.len() as int)
            &&& n.children@[0].children == c.children
            &&& n.children@[0].data == c.data
        } else if cl == 0 {
            false
        } else {
            &&& n.prefix == c.prefix
            &&& n.data == c.data.add_spec(d)
            &&& children_after(c.children@, n.children@, p.skip(cl as int), d)
        },
    }
}

/// Where a child starts the path and the first frames of the children differ, the other
/// children stay and that one takes the path.
proof fn lemma_children_after_found(olds: Seq<Node>, news: Seq<Node>, p: Seq<usize>, d: Data, pos: int)
    requires
        p.len() > 0,
        0 <= pos < olds.len(),
        olds[pos].prefix@.len() > 0,
        olds[pos].prefix@[0] == p[0],
        forall|i: int| 0 <= i < olds.len() ==> #[trigger] olds[i].prefix@.len() > 0,
        forall|i: int, j: int|
            0 <= i < olds.len() && 0 <= j < olds.len() && i != j ==> #[trigger] olds[i].prefix@[0]
                != #[trigger] olds[j].prefix@[0],
        news.len() == olds.len(),
        forall|j: int| 0 <= j < olds.len() && j != pos ==> news[j] == olds[j],
        child_after(olds[pos], news[pos], p, d),
    ensures
        children_after(olds, news, p, d),
{
    reveal_with_fuel(children_after, 2);
    reveal_with_fuel(child_after, 2);
    assert(olds[pos].prefix@.len() > 0 && olds[pos].prefix@[0] == p[0]);
    let i = choose|i: int|
        0 <= i < olds.len() && (#[trigger] olds[i]).prefix@.len() > 0 && olds[i].prefix@[0] == p[0];
    if i != pos {
        assert(olds[i].prefix@[0] != olds[pos].prefix@[0]);
    }
    assert(i == pos);
    assert(news.len() == olds.len());
    assert(forall|j: int| 0 <= j < olds.len() && j != i ==> news[j] == olds[j]);
    assert(child_after(olds[i], news[i], p, d));
}

/// The first mismatch found from the start is the one `mismatch` picks.
proof fn lemma_mismatch(a: Seq<usize>, b: Seq<usize>, k: int)
    requires
        0 <= k < a.len(),
        k < b.len(),
        a[k] != b[k],
        forall|j: int| 0 <= j < k ==> a[j] == b[j],
    ensures
        mismatch(a, b) == Some(k),
{
    let c = choose|c: int|
        0 <= c < a.len() && c < b.len() && a[c] != b[c] && forall|j: int| 0 <= j < c ==> a[j] == b[j];
    assert(0 <= c < a.len() && c < b.len() && a[c] != b[c] && forall|j: int| 0 <= j < c ==> a[j] == b[j]);
    if c < k {
        assert(a[c] == b[c]);
    }
    if k < c {
        assert(a[k] == b[k]);
    }
}

/// An empty path changes no children.
proof fn lemma_children_after_empty(olds: Seq<Node>, p: Seq<usize>, d: Data)
    requires
        p.len() == 0,
    ensures
        children_after(olds, olds, p, d),
{
    reveal_with_fuel(children_after, 1);
}

/// Where no child starts the path, a leaf with the whole path is appended.
proof fn lemma_children_after_leaf(olds: Seq<Node>, news: Seq<Node>, p: Seq<usize>, d: Data)
    requires
        p.len() > 0,
        forall|i: int| 0 <= i < olds.len() ==> !((#[trigger] olds[i]).prefix@.len() > 0 && olds[i].prefix@[0] == p[0]),
        news.len() == olds.len() + 1,
        news.drop_last() == olds,
        news.last().prefix@ == p,
        news.last().children@.len() == 0,
        news.last().data == d,
    ensures
        children_after(olds, news, p, d),
{
    reveal_with_fuel(children_after, 1);
}

/// The child where the path leaves its prefix at `si`: split there, with a new leaf.
proof fn lemma_child_after_split(c: Node, mid: Node, n: Node, p: Seq<usize>, d: Data, si: int)
    requires
        0 < si < c.prefix@.len(),
        si < p.len(),
        c.prefix@[si] != p[si],
        forall|j: int| 0 <= j < si ==> c.prefix@[j] == p[j],
        mid.prefix@ == c.prefix@.subrange(0, si),
        mid.data == c.data.add_spec(d),
        mid.children@.len() == 1,
        mid.children@[0].prefix@ == c.prefix@.skip(si),
        mid.children@[0].children == c.children,
        mid.children@[0].data == c.data,
        n.prefix == mid.prefix,
        n.data == mid.data,
        children_after(mid.children@, n.children@, p.skip(si), d),
    ensures
        child_after(c, n, p, d),
{
    reveal_with_fuel(children_after, 1);
    reveal_with_fuel(child_after, 1);
    lemma_mismatch(c.prefix@, p, si);
    let r = p.skip(si);
    assert(r[0] == p[si]);
    assert(mid.children@[0].prefix@[0] == c.prefix@[si]);
    assert(!exists|i: int|
        0 <= i < mid.children@.len() && (#[trigger] mid.children@[i]).prefix@.len() > 0
            && mid.children@[i].prefix@[0] == r[0]);
    assert(n.children@[0] == n.children@.drop_last()[0]);
    assert(c.prefix@.take(si) =~= c.prefix@.subrange(0, si));
}

/// The child where the path ends inside its prefix: split at the end of the path.
proof fn lemma_child_after_prefix(c: Node, n: Node, p: Seq<usize>, d: Data)
    requires
        p.len() < c.prefix@.len(),
        forall|j: int| 0 <= j < p.len() ==> c.prefix@[j] == p[j],
        n.prefix@ == p,
        n.data == c.data.add_spec(d),
        n.children@.len() == 1,
        n.children@[0].prefix@ == c.prefix@.skip(p.len() as int),
        n.children@[0].children == c.children,
        n.children@[0].data == c.data,
    ensures
        child_after(c, n, p, d),
{
    reveal_with_fuel(child_after, 1);
    assert(!exists|k: int| 0 <= k < c.prefix@.len() && k < p.len() && c.prefix@[k] != p[k]);
}

/// The child whose whole prefix the path passes: it adds `d`, the rest goes below.
proof fn lemma_child_after_pass(c: Node, n: Node, p: Seq<usize>, d: Data)
    requires
        0 < c.prefix@.len() <= p.len(),
        forall|j: int| 0 <= j < c.prefix@.len() ==> c.prefix@[j] == p[j],
        n.prefix == c.prefix,
        n.data == c.data.add_spec(d),
        children_after(c.children@, n.children@, p.skip(c.prefix@.len() as int), d),
    ensures
        child_after(c, n, p, d),
{
    reveal_with_fuel(child_after, 2);
    reveal_with_fuel(children_after, 2);
    assert(!exists|k: int| 0 <= k < c.prefix@.len() && k < p.len() && c.prefix@[k] != p[k]);
}

/// Whether a path leads through a node depends only on its children.
proof fn lemma_has_path_same_children(a: Node, b: Node, q: Seq<usize>)
    requires
        a.children == b.children,
    ensures
        a.has_path(q) == b.has_path(q),
{
}

/// Splitting a node keeps every path that led through it.
proof fn lemma_split_keeps_path(old_child: Node, child: Node, si: int, q: Seq<usize>)
    requires
        0 < si < old_child.prefix@.len(),
        child.prefix@ == old_child.prefix@.subrange(0, si),
        child.children.len() == 1,
        child.children[0].prefix@ == old_child.prefix@.skip(si),
        child.children[0].children == old_child.children,
        is_prefix_of(old_child.prefix@, q),
        old_child.has_path(q.skip(old_child.prefix@.len() as int)),
    ensures
        is_prefix_of(child.prefix@, q),
        child.has_path(q.skip(si)),
{
    let c = old_child.prefix@;
    let lower = child.children[0];
    let r = q.skip(si);
    assert(child.prefix@ =~= q.subrange(0, si));
    assert(r.subrange(0, c.len() - si) =~= c.skip(si)) by {
        assert forall|j: int| 0 <= j < c.len() - si implies r.subrange(0, c.len() - si)[j] == c.skip(
            si,
        )[j] by {
            assert(q.subrange(0, c.len() as int)[si + j] == c[si + j]);
        }
    }
    assert(is_prefix_of(lower.prefix@, r));
    assert(r.skip(lower.prefix@.len() as int) =~= q.skip(c.len() as int));
    lemma_has_path_same_children(lower, old_child, q.skip(c.len() as int));
    assert(r.len() > 0);
    assert(child.children[0].has_path(r.skip(child.children[0].prefix@.len() as int)));
}

impl Node {
    /// Insert the frames `prefix[index..]` below this node, whose data already holds `data`.
    fn insert_below(&mut self, prefix: &Vec<usize>, index: usize, data: &Data)
        requires
            index <= prefix.len(),
            old(self).wf(),
            data.le(old(self).data),
            forall|i: int|
                0 <= i < old(self).children.len() ==> (#[trigger] old(self).children[i]).data.addable(
                    *data,
                ) && old(self).children[i].data.add_spec(*data).le(old(self).data),
        ensures
            final(self).wf(),
            final(self).prefix == old(self).prefix,
            final(self).data == old(self).data,
            final(self).has_path(prefix@.skip(index as int)),
            forall|q: Seq<usize>| old(self).has_path(q) ==> #[trigger] final(self).has_path(q),
            children_after(old(self).children@, final(self).children@, prefix@.skip(index as int), *data),
        decreases prefix.len() - index,
    {
        let ghost p = prefix@.skip(index as int);
        if index >= prefix.len() {
            assert(p.len() == 0);
            proof {
                lemma_children_after_empty(self.children@, p, *data);
            }
            return;
        }
        let key = prefix[index];
        let ghost old_self = *self;
        match self.find_child(key) {
            None => {
                self.add_child(prefix, index, data);
                proof {
                    let n = self.children.len() - 1;
                    let leaf = self.children[n];
                    assert(self.children@.drop_last() == old_self.children@);
                    assert forall|i: int| 0 <= i < n implies self.children[i] == old_self.children[i] by {
                        assert(self.children@.drop_last()[i] == self.children@[i]);
                    }
                    assert(leaf.prefix@ == p);
                    assert(leaf.prefix@[0] == key);
                    assert(leaf.wf());
                    assert forall|i: int, j: int|
                        0 <= i < self.children.len() && 0 <= j < self.children.len() && i != j
                            implies #[trigger] self.children[i].prefix@[0]
                        != #[trigger] self.children[j].prefix@[0] by {
                        if i == n {
                            assert(!old_self.child_starts_with(j, key));
                            assert(self.children[j] == old_self.children[j]);
                        } else if j == n {
                            assert(!old_self.child_starts_with(i, key));
                            assert(self.children[i] == old_self.children[i]);
                        } else {
                            assert(self.children[i] == old_self.children[i]);
                            assert(self.children[j] == old_self.children[j]);
                            assert(old_self.children[i].prefix@[0] != old_self.children[j].prefix@[0]);
                        }
                    }
                    assert(p.subrange(0, p.len() as int) =~= p);
                    assert(is_prefix_of(self.children[n].prefix@, p));
                    assert(p.skip(p.len() as int).len() == 0);
                    assert(self.children[n].has_path(p.skip(self.children[n].prefix@.len() as int)));
                    assert forall|i: int| 0 <= i < self.children.len() implies #[trigger] self.children[i].prefix@.len() > 0 by {
                        if i < n {
                            assert(self.children[i] == old_self.children[i]);
                        }
                    }
                    assert forall|i: int| 0 <= i < self.children.len() implies (#[trigger] self.children[i]).data.le(self.data) by {
                        if i < n {
                            assert(self.children[i] == old_self.children[i]);
                        }
                    }
                    assert forall|i: int| 0 <= i < self.children.len() implies (#[trigger] self.children[i]).wf() by {
                        if i < n {
                            assert(self.children[i] == old_self.children[i]);
                        }
                    }
                    assert(self.wf());
                    assert forall|q: Seq<usize>| old_self.has_path(q) implies #[trigger] self.has_path(q) by {
                        if q.len() > 0 {
                            let i = choose|i: int|
                                0 <= i < old_self.children.len() && #[trigger] is_prefix_of(old_self.children[i].prefix@, q)
                                    && old_self.children[i].prefix@.len() > 0 && old_self.children[i].has_path(
                                    q.skip(old_self.children[i].prefix@.len() as int),
                                );
                            assert(self.children[i] == old_self.children[i]);
                        }
                    }
                    assert(p[0] == key);
                    assert forall|i: int| 0 <= i < old_self.children@.len() implies !((
                    #[trigger] old_self.children@[i]).prefix@.len() > 0
                        && old_self.children@[i].prefix@[0] == p[0]) by {
                        assert(!old_self.child_starts_with(i, key));
                    }
                    lemma_children_after_leaf(old_self.children@, self.children@, p, *data);
                }
            },
            Some(pos) => {
                let ghost old_children = self.children@;
                let mut child = self.children.remove(pos);
                proof {
                    assert(child == old_children[pos as int]);
                    assert(child.wf());
                    assert(child.data.addable(*data));
                    assert(child.data.add_spec(*data).le(old_self.data));
                }
                let ghost old_child = child;
                match child.split_index(prefix, index) {
                    Some(si) => {
                        assert(si > 0);
                        child.split(si, data);
                        proof {
                            lemma_data_add_monotone(old_child.data, old_child.data, *data);
                            lemma_data_le_refl(old_child.data.add_spec(*data));
                            assert(child.children[0].data == old_child.data);
                        }
                        let ghost mid = child;
                        child.insert_below(prefix, index + si, data);
                        proof {
                            assert(child.prefix@ =~= p.subrange(0, si as int));
                            assert(p.skip(si as int) =~= prefix@.skip(index + si));
                            assert(child.prefix@.len() == si);
                            assert forall|q: Seq<usize>|
                                #[trigger] is_prefix_of(old_child.prefix@, q) && old_child.has_path(
                                    q.skip(old_child.prefix@.len() as int),
                                ) implies is_prefix_of(child.prefix@, q) && child.has_path(
                                q.skip(child.prefix@.len() as int),
                            ) by {
                                lemma_split_keeps_path(old_child, mid, si as int, q);
                            }
                            assert forall|j: int| 0 <= j < si implies old_child.prefix@[j] == p[j] by {
                                assert(p[j] == prefix@[index + j]);
                            }
                            assert(p[si as int] == prefix@[index + si]);
                            lemma_child_after_split(old_child, mid, child, p, *data, si as int);
                        }
                    },
                    None => {
                        let rest = prefix.len() - index;
                        let clen = child.prefix.len();
                        if rest < clen {
                            child.split(rest, data);
                            proof {
                                assert(child.prefix@ =~= p);
                                assert(p.subrange(0, p.len() as int) =~= p);
                                assert(p.skip(p.len() as int).len() == 0);
                                assert forall|q: Seq<usize>|
                                    #[trigger] is_prefix_of(old_child.prefix@, q) && old_child.has_path(
                                        q.skip(old_child.prefix@.len() as int),
                                    ) implies is_prefix_of(child.prefix@, q) && child.has_path(
                                    q.skip(child.prefix@.len() as int),
                                ) by {
                                    lemma_split_keeps_path(old_child, child, rest as int, q);
                                }
                                assert forall|j: int| 0 <= j < p.len() implies old_child.prefix@[j] == p[j] by {
                                    assert(p[j] == prefix@[index + j]);
                                }
                                lemma_child_after_prefix(old_child, child, p, *data);
                            }
                        } else {
                            child.add_data(data);
                            proof {
                                lemma_data_add_monotone(old_child.data, old_child.data, *data);
                                lemma_data_le_refl(old_child.data);
                                assert forall|i: int| 0 <= i < child.children.len() implies (
                                #[trigger] child.children[i]).data.le(child.data) by {
                                    lemma_data_le_trans(
                                        child.children[i].data,
                                        old_child.data,
                                        child.data,
                                    );
                                }
                                assert(child.wf());
                                assert(child.prefix@ =~= p.subrange(0, clen as int));
                                assert forall|q: Seq<usize>| #[trigger] old_child.has_path(q) implies child.has_path(q) by {
                                    lemma_has_path_same_children(old_child, child, q);
                                }
                            }
                            if rest > clen {
                                proof {
                                    assert forall|i: int| 0 <= i < child.children.len() implies (
                                    #[trigger] child.children[i]).data.addable(*data)
                                        && child.children[i].data.add_spec(*data).le(child.data) by {
                                        lemma_data_add_monotone(
                                            child.children[i].data,
                                            old_child.data,
                                            *data,
                                        );
                                    }
                                }
                                let ghost before_below = child;
                                child.insert_below(prefix, index + clen, data);
                                proof {
                                    assert(p.skip(clen as int) =~= prefix@.skip(index + clen));
                                    assert(before_below.children == old_child.children);
                                }
                            } else {
                                assert(p.skip(clen as int).len() == 0);
                                proof {
                                    lemma_children_after_empty(child.children@, p.skip(clen as int), *data);
                                }
                            }
                            proof {
                                assert forall|j: int| 0 <= j < clen implies old_child.prefix@[j] == p[j] by {
                                    assert(p[j] == prefix@[index + j]);
                                }
                                lemma_child_after_pass(old_child, child, p, *data);
                            }
                        }
                    },
                }
                proof {
                    assert forall|q: Seq<usize>|
                        #[trigger] is_prefix_of(old_child.prefix@, q) && old_child.has_path(
                            q.skip(old_child.prefix@.len() as int),
                        ) implies is_prefix_of(child.prefix@, q) && child.has_path(
                        q.skip(child.prefix@.len() as int),
                    ) by {
                        if child.prefix == old_child.prefix {
                            assert(old_child.has_path(q.skip(old_child.prefix@.len() as int)));
                        }
                    }
                    assert(child.prefix@.len() > 0);
                    assert(child.wf());
                    assert(is_prefix_of(child.prefix@, p));
                    assert(child.has_path(p.skip(child.prefix@.len() as int)));
                }
                self.children.insert(pos, child);
                proof {
                    assert(self.children@ =~= old_children.update(pos as int, child));
                    assert(child.prefix@[0] == key);
                    assert(child.data == old_child.data.add_spec(*data));
                    assert forall|i: int, j: int|
                        0 <= i < self.children.len() && 0 <= j < self.children.len() && i != j
                            implies #[trigger] self.children[i].prefix@[0]
                        != #[trigger] self.children[j].prefix@[0] by {
                        assert(old_children[i].prefix@[0] != old_children[j].prefix@[0]);
                    }
                    assert forall|i: int| 0 <= i < self.children.len() implies (
                    #[trigger] self.children[i]).data.le(self.data) by {
                        if i != pos {
                            assert(old_children[i].data.le(old_self.data));
                        }
                    }
                    assert(is_prefix_of(self.children[pos as int].prefix@, p));
                    assert(self.children[pos as int].has_path(
                        p.skip(self.children[pos as int].prefix@.len() as int),
                    ));
                    assert forall|i: int| 0 <= i < self.children.len() implies #[trigger] self.children[i].prefix@.len() > 0 by {
                        if i != pos {
                            assert(old_children[i].prefix@.len() > 0);
                        }
                    }
                    assert forall|i: int| 0 <= i < self.children.len() implies (#[trigger] self.children[i]).wf() by {
                        if i != pos {
                            assert(old_children[i].wf());
                        }
                    }
                    assert(self.wf());
                    assert(child_after(old_child, child, p, *data));
                    assert(old_children[pos as int] == old_child);
                    assert(p[0] == key);
                    lemma_children_after_found(old_children, self.children@, p, *data, pos as int);
                    assert forall|q: Seq<usize>| old_self.has_path(q) implies #[trigger] self.has_path(q) by {
                        if q.len() > 0 {
                            let i = choose|i: int|
                                0 <= i < old_self.children.len() && #[trigger] is_prefix_of(old_self.children[i].prefix@, q)
                                    && old_self.children[i].prefix@.len() > 0 && old_self.children[i].has_path(
                                    q.skip(old_self.children[i].prefix@.len() as int),
                                );
                            if i == pos {
                                assert(old_children[i] == old_child);
                                assert(is_prefix_of(self.children[i].prefix@, q));
                            } else {
                                assert(self.children[i] == old_children[i]);
                            }
                        }
                    }
                }
            },
        }
    }
}

/// The prefix tree of the program points of a DHAT run
#[derive(Debug, PartialEq, Eq)]
pub struct Tree {
    /// The root node. Its prefix is empty and it aggregates all data.
    pub root: Box<Node>,
}

impl Default for Tree {
    fn default() -> (r: Tree)
        ensures
            r.root.prefix@.len() == 0,
            r.root.children@.len() == 0,
            r.root.data == Data::empty_spec(),
            r.wf(),
    {
        Tree { root: Box::new(Node::with_prefix(Vec::new())) }
    }
}

impl Tree {
    /// The tree invariant: that of the root node
    pub open spec fn wf(self) -> bool {
        self.root.wf()
    }

    /// Following the prefixes from the root, `p` ends exactly at a node.
    pub open spec fn contains_path(self, p: Seq<usize>) -> bool {
        self.root.has_path(p)
    }

    /// Insert the frames `prefix` of a program point with `data`.
    ///
    /// The root aggregates all data; the nodes on the path of `prefix` add `data`, splitting a
    /// node where the path leaves its prefix, and a new leaf holds the part of the path that no
    /// node had before.
    pub fn insert(&mut self, prefix: &Vec<usize>, data: &Data)
        requires
            old(self).wf(),
            old(self).root.data.addable(*data),
        ensures
            final(self).wf(),
            final(self).root.data == old(self).root.data.add_spec(*data),
            final(self).root.prefix == old(self).root.prefix,
            final(self).contains_path(prefix@),
            forall|q: Seq<usize>| old(self).contains_path(q) ==> #[trigger] final(self).contains_path(q),
            children_after(old(self).root.children@, final(self).root.children@, prefix@, *data),
    {
        let ghost old_root = *self.root;
        self.root.add_data(data);
        proof {
            lemma_data_add_monotone(old_root.data, old_root.data, *data);
            lemma_data_le_refl(old_root.data);
            assert forall|i: int| 0 <= i < self.root.children.len() implies (
            #[trigger] self.root.children[i]).data.addable(*data)
                && self.root.children[i].data.add_spec(*data).le(self.root.data) by {
                lemma_data_add_monotone(self.root.children[i].data, old_root.data, *data);
            }
            assert forall|i: int| 0 <= i < self.root.children.len() implies (
            #[trigger] self.root.children[i]).data.le(self.root.data) by {
                lemma_data_le_trans(self.root.children[i].data, old_root.data, self.root.data);
            }
            assert(self.root.wf());
        }
        let ghost added = *self.root;
        self.root.insert_below(prefix, 0, data);
        assert(prefix@.skip(0) =~= prefix@);
        assert(added.children == old_root.children);
    }
}

/// The sum of the data of the program points `pps`, added in order.
pub open spec fn data_total(pps: Seq<ProgramPoint>) -> Data
    decreases pps.len(),
{
    if pps.len() == 0 {
        Data::empty_spec()
    } else {
        data_total(pps.drop_last()).add_spec(Data::from_spec(pps.last()))
    }
}

/// Adding up the data of the program points `pps` in order overflows no counter.
pub open spec fn totals_fit(pps: Seq<ProgramPoint>) -> bool {
    forall|k: int| 0 <= k < pps.len() ==> #[trigger] data_total(pps.take(k)).addable(Data::from_spec(pps[k]))
}

/// The metric kinds with the counters of `d` in the order of the DHAT log file.
pub open spec fn metric_entries(d: Data) -> Seq<(DhatMetricKind, Option<u64>)> {
    seq![
        (DhatMetricKind::TotalBytes, Some(d.total_bytes)),
        (DhatMetricKind::TotalBlocks, Some(d.total_blocks)),
        (DhatMetricKind::AtTGmaxBytes, d.bytes_at_max),
        (DhatMetricKind::AtTGmaxBlocks, d.blocks_at_max),
        (DhatMetricKind::AtTEndBytes, d.bytes_at_end),
        (DhatMetricKind::AtTEndBlocks, d.blocks_at_end),
        (DhatMetricKind::ReadsBytes, d.blocks_read),
        (DhatMetricKind::WritesBytes, d.blocks_write),
        (DhatMetricKind::TotalLifetimes, match d.total_lifetimes {
            Some(x) => Some(x as u64),
            None => None,
        }),
        (DhatMetricKind::MaximumBytes, d.maximum_bytes),
        (DhatMetricKind::MaximumBlocks, d.maximum_blocks),
    ]
}

/// The entries whose counter is present, in order.
pub open spec fn present_metrics(s: Seq<(DhatMetricKind, Option<u64>)>) -> Seq<(DhatMetricKind, u64)>
    decreases s.len(),
{
    if s.len() == 0 {
        Seq::empty()
    } else {
        present_metrics(s.drop_last()) + match s.last().1 {
            Some(x) => seq![(s.last().0, x)],
            None => Seq::<(DhatMetricKind, u64)>::empty(),
        }
    }
}

/// The metrics of the root data in the order of the DHAT log file, each present counter once.
pub open spec fn metrics_spec(d: Data) -> Seq<(DhatMetricKind, u64)> {
    present_metrics(metric_entries(d))
}

/// The counter of `d` that the metric kind names; the total lifetimes cut to 64 bits.
pub open spec fn root_counter(d: Data, kind: DhatMetricKind) -> Option<u64> {
    match kind {
        DhatMetricKind::TotalBytes => Some(d.total_bytes),
        DhatMetricKind::TotalBlocks => Some(d.total_blocks),
        DhatMetricKind::AtTGmaxBytes => d.bytes_at_max,
        DhatMetricKind::AtTGmaxBlocks => d.blocks_at_max,
        DhatMetricKind::AtTEndBytes => d.bytes_at_end,
        DhatMetricKind::AtTEndBlocks => d.blocks_at_end,
        DhatMetricKind::ReadsBytes => d.blocks_read,
        DhatMetricKind::WritesBytes => d.blocks_write,
        DhatMetricKind::TotalLifetimes => match d.total_lifetimes {
            Some(x) => Some(x as u64),
            None => None,
        },
        DhatMetricKind::MaximumBytes => d.maximum_bytes,
        DhatMetricKind::MaximumBlocks => d.maximum_blocks,
    }
}

/// The present entries are those of `s` with a value, each taken with that value.
proof fn lemma_present_metrics(s: Seq<(DhatMetricKind, Option<u64>)>)
    ensures
        forall|i: int| #![trigger present_metrics(s)[i]] 0 <= i < present_metrics(s).len() ==> exists|j: int|
            0 <= j < s.len() && (#[trigger] s[j]).0 == present_metrics(s)[i].0 && s[j].1 == Some(
                present_metrics(s)[i].1,
            ),
        forall|j: int| 0 <= j < s.len() && (#[trigger] s[j]).1 is Some ==> present_metrics(s).contains(
            (s[j].0, s[j].1.unwrap()),
        ),
    decreases s.len(),
{
    if s.len() > 0 {
        let p = s.drop_last();
        lemma_present_metrics(p);
        let pm = present_metrics(p);
        let all = present_metrics(s);
        assert forall|i: int| #![trigger all[i]] 0 <= i < all.len() implies exists|j: int|
            0 <= j < s.len() && (#[trigger] s[j]).0 == all[i].0 && s[j].1 == Some(all[i].1) by {
            if i < pm.len() {
                assert(all[i] == pm[i]);
                let j = choose|j: int| 0 <= j < p.len() && (#[trigger] p[j]).0 == pm[i].0 && p[j].1 == Some(pm[i].1);
                assert(s[j] == p[j]);
            } else {
                assert(s[s.len() - 1] == s.last());
            }
        }
        assert forall|j: int| 0 <= j < s.len() && (#[trigger] s[j]).1 is Some implies all.contains(
            (s[j].0, s[j].1.unwrap()),
        ) by {
            if j < p.len() {
                assert(p[j] == s[j]);
                let k = choose|k: int| 0 <= k < pm.len() && pm[k] == (p[j].0, p[j].1.unwrap());
                assert(all[k] == pm[k]);
            } else {
                assert(all[pm.len() as int] == (s[j].0, s[j].1.unwrap()));
            }
        }
    }
}

/// Each metric carries the root counter of the same name (the reads are the bytes read, the
/// writes the bytes written, and so on), and every counter of the root that is present is
/// among the metrics.
pub proof fn lemma_metrics_name_root_counters(d: Data)
    ensures
        forall|i: int| 0 <= i < metrics_spec(d).len() ==> root_counter(d, (#[trigger] metrics_spec(d)[i]).0)
            == Some(metrics_spec(d)[i].1),
        forall|kind: DhatMetricKind| #[trigger] root_counter(d, kind) is Some ==> metrics_spec(d).contains(
            (kind, root_counter(d, kind).unwrap()),
        ),
{
    let s = metric_entries(d);
    lemma_present_metrics(s);
    assert forall|j: int| 0 <= j < s.len() implies #[trigger] root_counter(d, s[j].0) == s[j].1 by {}
    assert forall|i: int| 0 <= i < metrics_spec(d).len() implies root_counter(d, (#[trigger] metrics_spec(d)[i]).0)
        == Some(metrics_spec(d)[i].1) by {
        let j = choose|j: int| 0 <= j < s.len() && (#[trigger] s[j]).0 == metrics_spec(d)[i].0 && s[j].1 == Some(metrics_spec(d)[i].1);
        assert(root_counter(d, s[j].0) == s[j].1);
    }
    assert forall|kind: DhatMetricKind| #[trigger] root_counter(d, kind) is Some implies metrics_spec(d).contains(
        (kind, root_counter(d, kind).unwrap()),
    ) by {
        let j: int = match kind {
            DhatMetricKind::TotalBytes => 0,
            DhatMetricKind::TotalBlocks => 1,
            DhatMetricKind::AtTGmaxBytes => 2,
            DhatMetricKind::AtTGmaxBlocks => 3,
            DhatMetricKind::AtTEndBytes => 4,
            DhatMetricKind::AtTEndBlocks => 5,
            DhatMetricKind::ReadsBytes => 6,
            DhatMetricKind::WritesBytes => 7,
            DhatMetricKind::TotalLifetimes => 8,
            DhatMetricKind::MaximumBytes => 9,
            DhatMetricKind::MaximumBlocks => 10,
        };
        assert(s[j].0 == kind);
        assert(root_counter(d, s[j].0) == s[j].1);
    }
}

impl Tree {
    /// The metrics of the root in the order of the DHAT log file; absent counters are left
    /// out, the total lifetimes are cut to 64 bits.
    pub fn metrics(&self) -> (r: Vec<(DhatMetricKind, u64)>)
        ensures
            r@ == metrics_spec(self.root.data),
            forall|i: int| 0 <= i < r.len() ==> root_counter(self.root.data, (#[trigger] r@[i]).0) == Some(r@[i].1),
            forall|kind: DhatMetricKind| #[trigger] root_counter(self.root.data, kind) is Some ==> r@.contains(
                (kind, root_counter(self.root.data, kind).unwrap()),
            ),
    {
        proof {
            lemma_metrics_name_root_counters(self.root.data);
        }
        let d = self.root.data;
        let lifetimes: Option<u64> = match d.total_lifetimes {
            Some(x) => Some(x as u64),
            None => None,
        };
        let mut entries: Vec<(DhatMetricKind, Option<u64>)> = Vec::new();
        entries.push((DhatMetricKind::TotalBytes, Some(d.total_bytes)));
        entries.push((DhatMetricKind::TotalBlocks, Some(d.total_blocks)));
        entries.push((DhatMetricKind::AtTGmaxBytes, d.bytes_at_max));
        entries.push((DhatMetricKind::AtTGmaxBlocks, d.blocks_at_max));
        entries.push((DhatMetricKind::AtTEndBytes, d.bytes_at_end));
        entries.push((DhatMetricKind::AtTEndBlocks, d.blocks_at_end));
        entries.push((DhatMetricKind::ReadsBytes, d.blocks_read));
        entries.push((DhatMetricKind::WritesBytes, d.blocks_write));
        entries.push((DhatMetricKind::TotalLifetimes, lifetimes));
        entries.push((DhatMetricKind::MaximumBytes, d.maximum_bytes));
        entries.push((DhatMetricKind::MaximumBlocks, d.maximum_blocks));
        assert(entries@ =~= metric_entries(d));
        let mut metrics: Vec<(DhatMetricKind, u64)> = Vec::new();
        let mut i: usize = 0;
        while i < entries.len()
            invariant
                0 <= i <= entries.len(),
                metrics@ == present_metrics(entries@.take(i as int)),
            decreases entries.len() - i,
        {
            let (kind, value) = entries[i];
            assert(entries@.take(i + 1).drop_last() =~= entries@.take(i as int));
            match value {
                Some(x) => {
                    metrics.push((kind, x));
                },
                None => {},
            }
            assert(metrics@ =~= present_metrics(entries@.take(i + 1)));
            i += 1;
        }
        assert(entries@.take(entries.len() as int) =~= entries@);
        metrics
    }

    /// The tree of all program points of a DHAT run
    pub fn from(value: DhatData) -> (r: Tree)
        requires
            totals_fit(value.program_points@),
        ensures
            r.wf(),
            r.root.data == data_total(value.program_points@),
            forall|k: int|
                0 <= k < value.program_points.len() ==> r.contains_path(
                    #[trigger] value.program_points@[k].frames@,
                ),
    {
        let pps = &value.program_points;
        let mut tree = Tree::default();
        let mut i: usize = 0;
        while i < pps.len()
            invariant
                0 <= i <= pps.len(),
                totals_fit(pps@),
                tree.wf(),
                tree.root.data == data_total(pps@.take(i as int)),
                forall|k: int| 0 <= k < i ==> tree.contains_path(#[trigger] pps@[k].frames@),
            decreases pps.len() - i,
        {
            let pp = &pps[i];
            let data = Data::from(pp);
            assert(data_total(pps@.take(i as int)).addable(Data::from_spec(pps@[i as int])));
            tree.insert(&pp.frames, &data);
            assert(pps@.take(i + 1).drop_last() =~= pps@.take(i as int));
            i += 1;
        }
        assert(pps@.take(pps.len() as int) =~= pps@);
        tree
    }
}

/// Whether two optional counters can be added without overflow.
fn opt_fits(a: Option<u64>, b: Option<u64>) -> (r: bool)
    ensures
        r == (opt_val(a) + opt_val(b) <= u64::MAX),
{
    match (a, b) {
        (Some(x), Some(y)) => x <= u64::MAX - y,
        _ => true,
    }
}

/// Whether two optional wide counters can be added without overflow.
fn opt_fits_wide(a: Option<u128>, b: Option<u128>) -> (r: bool)
    ensures
        r == (opt_val_wide(a) + opt_val_wide(b) <= u128::MAX),
{
    match (a, b) {
        (Some(x), Some(y)) => x <= u128::MAX - y,
        _ => true,
    }
}

impl Data {
    /// Whether the counters of `other` can be added to these without overflow
    pub fn can_add(&self, other: &Data) -> (r: bool)
        ensures
            r == self.addable(*other),
    {
        self.total_bytes <= u64::MAX - other.total_bytes && self.total_blocks <= u64::MAX - other.total_blocks
            && opt_fits_wide(self.total_lifetimes, other.total_lifetimes) && opt_fits(
            self.maximum_bytes,
            other.maximum_bytes,
        ) && opt_fits(self.maximum_blocks, other.maximum_blocks) && opt_fits(self.bytes_at_max, other.bytes_at_max)
            && opt_fits(self.blocks_at_max, other.blocks_at_max) && opt_fits(self.bytes_at_end, other.bytes_at_end)
            && opt_fits(self.blocks_at_end, other.blocks_at_end) && opt_fits(self.blocks_read, other.blocks_read)
            && opt_fits(self.blocks_write, other.blocks_write)
    }
}

/// Whether the data of the program points can be added up in order without overflow
pub fn totals_fit_check(pps: &Vec<ProgramPoint>) -> (r: bool)
    ensures
        r == totals_fit(pps@),
{
    let mut total = Data::default();
    let mut i: usize = 0;
    assert(pps@.take(0) =~= Seq::<ProgramPoint>::empty());
    while i < pps.len()
        invariant
            0 <= i <= pps.len(),
            total == data_total(pps@.take(i as int)),
            forall|k: int| 0 <= k < i ==> #[trigger] data_total(pps@.take(k)).addable(Data::from_spec(pps@[k])),
        decreases pps.len() - i,
    {
        let d = Data::from(&pps[i]);
        if !total.can_add(&d) {
            assert(!data_total(pps@.take(i as int)).addable(Data::from_spec(pps@[i as int])));
            return false;
        }
        total.add(&d);
        assert(pps@.take(i + 1).drop_last() =~= pps@.take(i as int));
        i += 1;
    }
    true
}

/// The sources of the patterns a frame of the frame table is matched with: those of the
/// frames, then that of the entry point, where there is one.
pub open spec fn matcher_sources(frames: Seq<Pattern>, entry: Option<Pattern>) -> Seq<Seq<char>> {
    let fs = frames.map_values(|p: Pattern| p.source());
    match entry {
        Some(e) => fs.push(e.source()),
        None => fs,
    }
}

/// A frame of the table is a function that a pattern matches.
pub open spec fn leaf_matches(frame: Frame, matchers: Seq<Seq<char>>) -> bool {
    match frame {
        Frame::Leaf(_, f, _) => exists|m: int| 0 <= m < matchers.len() && regex_is_match(#[trigger] matchers[m], f@),
        Frame::Root => false,
    }
}

/// A program point runs through a frame of the table that a pattern matches.
pub open spec fn point_selected(pp: ProgramPoint, table: Seq<Frame>, matchers: Seq<Seq<char>>) -> bool {
    exists|j: int|
        0 <= j < pp.frames@.len() && 0 <= #[trigger] pp.frames@[j] < table.len() && leaf_matches(
            table[pp.frames@[j] as int],
            matchers,
        )
}

/// The program points that run through a frame that a pattern matches, in order.
pub open spec fn select_points(pps: Seq<ProgramPoint>, table: Seq<Frame>, matchers: Seq<Seq<char>>) -> Seq<ProgramPoint>
    decreases pps.len(),
{
    if pps.len() == 0 {
        Seq::empty()
    } else {
        let rest = select_points(pps.drop_last(), table, matchers);
        if point_selected(pps.last(), table, matchers) {
            rest.push(pps.last())
        } else {
            rest
        }
    }
}

/// A pattern matches a function of the frame table.
pub open spec fn any_frame_matches(table: Seq<Frame>, matchers: Seq<Seq<char>>) -> bool {
    exists|i: int| 0 <= i < table.len() && leaf_matches(#[trigger] table[i], matchers)
}

/// The program points whose data the tree of a DHAT run holds: all of them by default (no
/// entry point and no frames), else those that run through a matched frame.
pub open spec fn json_points(data: DhatData, entry_point: EntryPoint, frames: Seq<Pattern>, entry: Option<Pattern>) -> Seq<ProgramPoint> {
    if entry_point == EntryPoint::Disabled && frames.len() == 0 {
        data.program_points@
    } else {
        select_points(data.program_points@, data.frame_table@, matcher_sources(frames, entry))
    }
}

/// Whether the function of a frame is matched by one of the patterns.
fn frame_matches(frame: &Frame, frames: &Vec<Pattern>, entry: Option<&Pattern>) -> (r: bool)
    ensures
        r == leaf_matches(
            *frame,
            matcher_sources(
                frames@,
                match entry {
                    Some(e) => Some(*e),
                    None => None,
                },
            ),
        ),
{
    let ghost ms = matcher_sources(frames@, match entry { Some(e) => Some(*e), None => None });
    match frame {
        Frame::Root => false,
        Frame::Leaf(addr, f, loc) => {
            assert(*frame == Frame::Leaf(*addr, *f, *loc));
            let mut k: usize = 0;
            while k < frames.len()
                invariant
                    0 <= k <= frames.len(),
                    ms == matcher_sources(frames@, match entry { Some(e) => Some(*e), None => None }),
                    ms.len() >= frames@.len(),
                    *frame == Frame::Leaf(*addr, *f, *loc),
                    forall|m: int| 0 <= m < k ==> !regex_is_match(#[trigger] ms[m], f@),
                decreases frames.len() - k,
            {
                assert(ms[k as int] == frames@[k as int].source());
                if is_match(&frames[k], f.as_str()) {
                    assert(regex_is_match(ms[k as int], f@));
                    assert(ms.len() >= frames@.len());
                    assert(0 <= k < ms.len() && regex_is_match(ms[k as int], f@));
                    assert(leaf_matches(*frame, ms));
                    return true;
                }
                k += 1;
            }
            match entry {
                Some(e) => {
                    assert(ms[frames.len() as int] == e.source());
                    let r = is_match(e, f.as_str());
                    if r {
                        assert(regex_is_match(ms[frames.len() as int], f@));
                    }
                    r
                },
                None => false,
            }
        },
    }
}

/// Which frames of the table a pattern matches.
fn matched_frames(table: &Vec<Frame>, frames: &Vec<Pattern>, entry: Option<&Pattern>) -> (r: Vec<bool>)
    ensures
        r.len() == table.len(),
        forall|i: int| 0 <= i < table.len() ==> #[trigger] r@[i] == leaf_matches(
            table@[i],
            matcher_sources(frames@, match entry { Some(e) => Some(*e), None => None }),
        ),
{
    let mut r: Vec<bool> = Vec::new();
    let mut i: usize = 0;
    while i < table.len()
        invariant
            0 <= i <= table.len(),
            r.len() == i,
            forall|j: int| 0 <= j < i ==> #[trigger] r@[j] == leaf_matches(
                table@[j],
                matcher_sources(frames@, match entry { Some(e) => Some(*e), None => None }),
            ),
        decreases table.len() - i,
    {
        let m = frame_matches(&table[i], frames, entry);
        r.push(m);
        i += 1;
    }
    r
}

/// Whether a program point runs through a matched frame.
fn point_matches(pp: &ProgramPoint, matched: &Vec<bool>, Ghost(table): Ghost<Seq<Frame>>, Ghost(ms): Ghost<Seq<Seq<char>>>) -> (r: bool)
    requires
        matched.len() == table.len(),
        forall|i: int| 0 <= i < table.len() ==> #[trigger] matched@[i] == leaf_matches(table[i], ms),
    ensures
        r == point_selected(*pp, table, ms),
{
    let mut j: usize = 0;
    while j < pp.frames.len()
        invariant
            0 <= j <= pp.frames.len(),
            matched.len() == table.len(),
            forall|i: int| 0 <= i < table.len() ==> #[trigger] matched@[i] == leaf_matches(table[i], ms),
            forall|x: int|
                0 <= x < j ==> !(0 <= #[trigger] pp.frames@[x] < table.len() && leaf_matches(table[pp.frames@[x] as int], ms)),
        decreases pp.frames.len() - j,
    {
        let f = pp.frames[j];
        if f < matched.len() && matched[f] {
            assert(0 <= pp.frames@[j as int] < table.len() && leaf_matches(table[pp.frames@[j as int] as int], ms));
            return true;
        }
        j += 1;
    }
    false
}

/// `t` is the tree of a DHAT run restricted to the frames of interest: by default (no entry
/// point and no frame patterns) of all program points; else of those that run through a
/// function of the frame table that a frame pattern or the entry point's pattern `entry`
/// matches; where no function matches, a root with zero counts. The tree is well formed, its
/// root holds the sum of the data of the points and every point's frames are a path of it.
pub open spec fn json_tree(t: Tree, dhat_data: DhatData, entry_point: EntryPoint, frames: Seq<Pattern>, entry: Option<Pattern>) -> bool {
    let ms = matcher_sources(frames, entry);
    let pts = json_points(dhat_data, entry_point, frames, entry);
    &&& t.wf()
    &&& if !(entry_point == EntryPoint::Disabled && frames.len() == 0) && !any_frame_matches(dhat_data.frame_table@, ms) {
        t.root.data == Data::zero_spec()
    } else {
        &&& t.root.data == data_total(pts)
        &&& forall|k: int| 0 <= k < pts.len() ==> t.contains_path(#[trigger] pts[k].frames@)
    }
}

impl Tree {
    /// The tree of a DHAT run restricted to the frames of interest: by default (no entry point
    /// and no frame patterns) all program points; else those that run through a function of
    /// the frame table that a frame pattern or the entry point's pattern `entry` matches; if no
    /// function matches, a tree whose root has zero counts.
    pub fn from_json(dhat_data: DhatData, entry_point: &EntryPoint, frames: &Vec<Pattern>, entry: Option<&Pattern>) -> (r: Tree)
        requires
            totals_fit(json_points(dhat_data, *entry_point, frames@, match entry { Some(e) => Some(*e), None => None })),
        ensures
            json_tree(r, dhat_data, *entry_point, frames@, match entry { Some(e) => Some(*e), None => None }),
    {
        let ghost ms = matcher_sources(frames@, match entry { Some(e) => Some(*e), None => None });
        let ghost pts = json_points(dhat_data, *entry_point, frames@, match entry { Some(e) => Some(*e), None => None });
        let default_mode = match entry_point {
            EntryPoint::Disabled => frames.len() == 0,
            _ => false,
        };
        if default_mode {
            return Tree::from(dhat_data);
        }
        let matched = matched_frames(&dhat_data.frame_table, frames, entry);
        let mut any = false;
        let mut i: usize = 0;
        while i < matched.len()
            invariant
                0 <= i <= matched.len(),
                matched.len() == dhat_data.frame_table.len(),
                forall|x: int| 0 <= x < matched.len() ==> #[trigger] matched@[x] == leaf_matches(dhat_data.frame_table@[x], ms),
                any == exists|x: int| 0 <= x < i && leaf_matches(#[trigger] dhat_data.frame_table@[x], ms),
            decreases matched.len() - i,
        {
            if matched[i] {
                any = true;
            }
            i += 1;
        }
        let mut tree = Tree::default();
        if !any {
            tree.root.data = Data::zero();
            return tree;
        }
        let pps = &dhat_data.program_points;
        let ghost table = dhat_data.frame_table@;
        let mut k: usize = 0;
        assert(pps@.take(0) =~= Seq::<ProgramPoint>::empty());
        while k < pps.len()
            invariant
                0 <= k <= pps.len(),
                matched.len() == table.len(),
                table == dhat_data.frame_table@,
                forall|x: int| 0 <= x < table.len() ==> #[trigger] matched@[x] == leaf_matches(table[x], ms),
                pts == select_points(pps@, table, ms),
                totals_fit(pts),
                tree.wf(),
                tree.root.data == data_total(select_points(pps@.take(k as int), table, ms)),
                forall|x: int|
                    0 <= x < select_points(pps@.take(k as int), table, ms).len() ==> tree.contains_path(
                        #[trigger] select_points(pps@.take(k as int), table, ms)[x].frames@,
                    ),
            decreases pps.len() - k,
        {
            let ghost before = select_points(pps@.take(k as int), table, ms);
            assert(pps@.take(k + 1).drop_last() =~= pps@.take(k as int));
            assert(pps@.take(k + 1).last() == pps@[k as int]);
            let pp = &pps[k];
            if point_matches(pp, &matched, Ghost(table), Ghost(ms)) {
                let data = Data::from(pp);
                proof {
                    lemma_select_prefix(pps@, table, ms, k + 1);
                    let after = select_points(pps@.take(k + 1), table, ms);
                    assert(after == before.push(pps@[k as int]));
                    assert(after.take(before.len() as int) =~= before);
                    assert(pts.take(after.len() as int) == after);
                    assert(pts.take(before.len() as int) == before) by {
                        assert(pts.take(before.len() as int) =~= after.take(before.len() as int));
                    }
                    assert(pts.take(after.len() as int)[before.len() as int] == pts[before.len() as int]);
                    assert(pts[before.len() as int] == pps@[k as int]);
                    assert(data_total(pts.take(before.len() as int)).addable(Data::from_spec(pts[before.len() as int])));
                }
                tree.insert(&pp.frames, &data);
                proof {
                    let after = select_points(pps@.take(k + 1), table, ms);
                    assert(data_total(after) == data_total(before).add_spec(Data::from_spec(pps@[k as int])));
                    assert forall|x: int| 0 <= x < after.len() implies tree.contains_path(#[trigger] after[x].frames@) by {
                        if x < before.len() {
                            assert(after[x] == before[x]);
                        }
                    }
                }
            }
            k += 1;
        }
        assert(pps@.take(pps.len() as int) =~= pps@);
        tree
    }
}

/// The program points selected from a prefix are a prefix of those selected from all.
proof fn lemma_select_prefix(pps: Seq<ProgramPoint>, table: Seq<Frame>, ms: Seq<Seq<char>>, k: int)
    requires
        0 <= k <= pps.len(),
    ensures
        select_points(pps.take(k), table, ms).len() <= select_points(pps, table, ms).len(),
        select_points(pps, table, ms).take(select_points(pps.take(k), table, ms).len() as int) == select_points(
            pps.take(k),
            table,
            ms,
        ),
    decreases pps.len() - k,
{
    if k == pps.len() {
        assert(pps.take(k) =~= pps);
        assert(select_points(pps, table, ms).take(select_points(pps, table, ms).len() as int) =~= select_points(pps, table, ms));
    } else {
        lemma_select_prefix(pps, table, ms, k + 1);
        assert(pps.take(k + 1).drop_last() =~= pps.take(k));
        let a = select_points(pps.take(k), table, ms);
        let b = select_points(pps.take(k + 1), table, ms);
        let all = select_points(pps, table, ms);
        assert(all.take(a.len() as int) =~= b.take(a.len() as int));
        assert(b.take(a.len() as int) =~= a);
    }
}

/// Whether the program points of a DHAT run that the tree restricted to the frames of interest
/// would hold can be added up without overflow; where they can, that tree, as
/// [`Tree::from_json`] builds it.
pub fn try_from_json(dhat_data: DhatData, entry_point: &EntryPoint, frames: &Vec<Pattern>, entry: Option<&Pattern>) -> (r: Option<Tree>)
    ensures
        r is Some <==> totals_fit(json_points(dhat_data, *entry_point, frames@, match entry { Some(e) => Some(*e), None => None })),
        r matches Some(t) ==> json_tree(t, dhat_data, *entry_point, frames@, match entry { Some(e) => Some(*e), None => None }),
{
    let ghost ms = matcher_sources(frames@, match entry { Some(e) => Some(*e), None => None });
    let default_mode = match entry_point {
        EntryPoint::Disabled => frames.len() == 0,
        _ => false,
    };
    let fits = if default_mode {
        totals_fit_check(&dhat_data.program_points)
    } else {
        let matched = matched_frames(&dhat_data.frame_table, frames, entry);
        let pps = &dhat_data.program_points;
        let ghost table = dhat_data.frame_table@;
        let mut total = Data::default();
        let mut fits = true;
        let mut k: usize = 0;
        assert(pps@.take(0) =~= Seq::<ProgramPoint>::empty());
        while k < pps.len()
            invariant
                0 <= k <= pps.len(),
                matched.len() == table.len(),
                table == dhat_data.frame_table@,
                forall|x: int| 0 <= x < table.len() ==> #[trigger] matched@[x] == leaf_matches(table[x], ms),
                fits ==> total == data_total(select_points(pps@.take(k as int), table, ms)),
                fits ==> totals_fit(select_points(pps@.take(k as int), table, ms)),
                !fits ==> !totals_fit(select_points(pps@.take(k as int), table, ms)),
            decreases pps.len() - k,
        {
            let ghost before = select_points(pps@.take(k as int), table, ms);
            assert(pps@.take(k + 1).drop_last() =~= pps@.take(k as int));
            assert(pps@.take(k + 1).last() == pps@[k as int]);
            if point_matches(&pps[k], &matched, Ghost(table), Ghost(ms)) {
                let ghost after = before.push(pps@[k as int]);
                assert(after.take(before.len() as int) =~= before);
                if fits {
                    let d = Data::from(&pps[k]);
                    if total.can_add(&d) {
                        total.add(&d);
                        proof {
                            assert(after.drop_last() =~= before);
                            assert forall|x: int| 0 <= x < after.len() implies #[trigger] data_total(after.take(x)).addable(
                                Data::from_spec(after[x]),
                            ) by {
                                if x < before.len() {
                                    assert(after.take(x) =~= before.take(x));
                                    assert(after[x] == before[x]);
                                } else {
                                    assert(after.take(x) =~= before);
                                }
                            }
                            assert(after.take(after.len() as int) =~= after);
                        }
                    } else {
                        fits = false;
                        proof {
                            assert(after.take(before.len() as int) =~= before);
                            assert(!data_total(after.take(before.len() as int)).addable(Data::from_spec(after[before.len() as int])));
                        }
                    }
                } else {
                    proof {
                        let x = choose|x: int| 0 <= x < before.len() && !#[trigger] data_total(before.take(x)).addable(Data::from_spec(before[x]));
                        assert(after.take(x) =~= before.take(x));
                        assert(after[x] == before[x]);
                        assert(!data_total(after.take(x)).addable(Data::from_spec(after[x])));
                    }
                }
            }
            k += 1;
        }
        assert(pps@.take(pps.len() as int) =~= pps@);
        fits
    };
    if fits {
        let t = Tree::from_json(dhat_data, entry_point, frames, entry);
        Some(t)
    } else {
        None
    }
}

} // verus!
