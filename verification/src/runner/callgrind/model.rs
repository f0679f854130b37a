//! The structs that model the callgrind output: position types, positions and calls.
use vstd::prelude::*;

use indexmap::IndexMap;

use crate::collections::{
    assoc_distinct, assoc_insert, assoc_position, distinct_keys, lemma_assoc_insert,
    lemma_assoc_position, map_entries, map_get_index, map_insert, map_len, map_new,
    map_set_value_at,
};
use crate::text::{
    lowercase, parse_u64, parse_u64_exec, parse_u64_hex, parse_u64_hex_exec, strip_prefix,
    strip_prefix_exec, sub_chars, to_chars, eq_str, to_lowercase, from_chars,
};

verus! {

/// The kind of a position column of a cost line
#[derive(Debug, Clone, Copy, PartialEq, Eq, Hash, Structural)]
pub enum PositionType {
    /// The address of an instruction
    Instr,
    /// The line number
    Line,
}

impl PositionType {
    pub open spec fn spec_index(self) -> u8 {
        match self {
            PositionType::Instr => 0,
            PositionType::Line => 1,
        }
    }

    /// The position type named by the lowercase form of a `positions:` entry: `instr` or `addr`
    /// (the latter as `callgrind_annotate` accepts it) and `line`.
    pub open spec fn spec_from_lowercase(s: Seq<char>) -> Option<PositionType> {
        if s == "instr"@ || s == "addr"@ {
            Some(PositionType::Instr)
        } else if s == "line"@ {
            Some(PositionType::Line)
        } else {
            None
        }
    }

    /// The position type named by `value`, compared without regard to case.
    pub open spec fn spec_from_name(value: Seq<char>) -> Option<PositionType> {
        Self::spec_from_lowercase(lowercase(value))
    }

    /// The position type named by `value` if it names one
    pub fn try_from_name(value: &str) -> (r: Option<PositionType>)
        ensures
            r == Self::spec_from_name(value@),
    {
        let lower = to_lowercase(value);
        let v = to_chars(lower.as_str());
        if eq_str(&v, "instr") || eq_str(&v, "addr") {
            Some(PositionType::Instr)
        } else if eq_str(&v, "line") {
            Some(PositionType::Line)
        } else {
            None
        }
    }

    /// The position type named by `value`; the name must be known
    pub fn from_name(value: &str) -> (r: PositionType)
        requires
            Self::spec_from_name(value@) is Some,
        ensures
            Self::spec_from_name(value@) == Some(r),
    {
        match Self::try_from_name(value) {
            Some(p) => p,
            None => PositionType::Line,
        }
    }
}

/// The kind stored under a key of the underlying map.
pub open spec fn position_type_of(k: u8) -> PositionType {
    if k == 0 {
        PositionType::Instr
    } else {
        PositionType::Line
    }
}

pub open spec fn positions_view(s: Seq<(u8, u64)>) -> Seq<(PositionType, u64)> {
    s.map_values(|e: (u8, u64)| (position_type_of(e.0), e.1))
}

/// The positions of a cost line: position types with their values, in insertion order
#[derive(Debug)]
pub struct Positions {
    pub map: IndexMap<u8, u64>,
}

impl View for Positions {
    type V = Seq<(PositionType, u64)>;

    open spec fn view(&self) -> Seq<(PositionType, u64)> {
        positions_view(map_entries(self.map))
    }
}

/// The value of a position column: hexadecimal with a `0x` prefix, decimal otherwise.
pub open spec fn parse_position(s: Seq<char>) -> Option<u64> {
    match strip_prefix(s, "0x"@) {
        Some(hex) => parse_u64_hex(hex),
        None => parse_u64(s),
    }
}

/// Replace the values position by position with the parsed `tokens`. Where there are fewer
/// tokens than positions, the remaining values stay the same.
pub open spec fn set_positions(vals: Seq<u64>, tokens: Seq<Seq<char>>) -> Seq<u64> {
    Seq::new(
        vals.len(),
        |i: int|
            if i < tokens.len() {
                parse_position(tokens[i]).unwrap()
            } else {
                vals[i]
            },
    )
}

pub proof fn lemma_positions_insert(s: Seq<(u8, u64)>, k: u8, v: u64)
    requires
        distinct_keys(s),
        k < 2,
        forall|i: int| 0 <= i < s.len() ==> #[trigger] s[i].0 < 2,
    ensures
        positions_view(assoc_insert(s, k, v)) == assoc_insert(positions_view(s), position_type_of(k), v),
        assoc_distinct(positions_view(s)),
{
    let t = positions_view(s);
    assert forall|i: int, j: int| 0 <= i < t.len() && 0 <= j < t.len() && i != j implies t[i].0
        != t[j].0 by {
        assert(s[i].0 != s[j].0);
        assert(s[i].0 < 2);
        assert(s[j].0 < 2);
    }
    lemma_assoc_position(s, k);
    lemma_assoc_position(t, position_type_of(k));
    if exists|i: int| 0 <= i < s.len() && s[i].0 == k {
        let i = choose|i: int| 0 <= i < s.len() && s[i].0 == k;
        assert(t[i].0 == position_type_of(k));
        assert(positions_view(assoc_insert(s, k, v)) =~= assoc_insert(t, position_type_of(k), v));
    } else {
        assert forall|i: int| 0 <= i < t.len() implies t[i].0 != position_type_of(k) by {
            assert(s[i].0 != k);
            assert(s[i].0 < 2);
        }
        assert(positions_view(assoc_insert(s, k, v)) =~= assoc_insert(t, position_type_of(k), v));
    }
}

/// Insert the position types of `names` one after the other with the value zero.
pub open spec fn positions_from_names(s: Seq<(PositionType, u64)>, names: Seq<Seq<char>>) -> Seq<
    (PositionType, u64),
>
    decreases names.len(),
{
    if names.len() == 0 {
        s
    } else {
        assoc_insert(
            positions_from_names(s, names.drop_last()),
            PositionType::spec_from_name(names.last()).unwrap(),
            0,
        )
    }
}

impl Positions {
    pub open spec fn wf(self) -> bool {
        &&& distinct_keys(map_entries(self.map))
        &&& forall|i: int|
            0 <= i < map_entries(self.map).len() ==> #[trigger] map_entries(self.map)[i].0 < 2
    }

    /// The values in order.
    pub open spec fn values(self) -> Seq<u64> {
        self@.map_values(|e: (PositionType, u64)| e.1)
    }

    /// The position types in order.
    pub open spec fn kinds(self) -> Seq<PositionType> {
        self@.map_values(|e: (PositionType, u64)| e.0)
    }

    /// Positions without any position type
    pub fn empty() -> (r: Positions)
        ensures
            r.wf(),
            r@ == Seq::<(PositionType, u64)>::empty(),
    {
        let r = Positions { map: map_new() };
        assert(r@ =~= Seq::<(PositionType, u64)>::empty());
        r
    }

    /// The default positions: a single `line` column
    pub fn default_positions() -> (r: Positions)
        ensures
            r.wf(),
            r@ == seq![(PositionType::Line, 0u64)],
    {
        let mut r = Positions::empty();
        r.insert(PositionType::Line, 0);
        assert(r@ =~= seq![(PositionType::Line, 0u64)]);
        r
    }

    /// Insert `value` for `kind`
    pub fn insert(&mut self, kind: PositionType, value: u64)
        requires
            old(self).wf(),
        ensures
            final(self).wf(),
            final(self)@ == assoc_insert(old(self)@, kind, value),
    {
        let k: u8 = match kind {
            PositionType::Instr => 0,
            PositionType::Line => 1,
        };
        let ghost before = map_entries(self.map);
        proof {
            lemma_assoc_insert(before, k, value);
            lemma_positions_insert(before, k, value);
        }
        map_insert(&mut self.map, k, value);
        proof {
            let after = map_entries(self.map);
            assert forall|i: int| 0 <= i < after.len() implies #[trigger] after[i].0 < 2 by {
                if i < before.len() {
                    assert(before[i].0 < 2);
                }
            }
        }
    }

    /// Positions from the entries of a `positions:` line, all with the value zero. The names
    /// must be known position types.
    pub fn from_names(names: &Vec<Vec<char>>) -> (r: Positions)
        requires
            forall|i: int| 0 <= i < names.len() ==> PositionType::spec_from_name(#[trigger] names@[i]@) is Some,
        ensures
            r.wf(),
            r@ == positions_from_names(Seq::empty(), names@.map_values(|n: Vec<char>| n@)),
    {
        let ghost ns = names@.map_values(|n: Vec<char>| n@);
        let mut r = Positions::empty();
        let mut i: usize = 0;
        while i < names.len()
            invariant
                0 <= i <= names.len(),
                r.wf(),
                ns == names@.map_values(|n: Vec<char>| n@),
                forall|j: int| 0 <= j < names.len() ==> PositionType::spec_from_name(#[trigger] names@[j]@) is Some,
                r@ == positions_from_names(Seq::empty(), ns.take(i as int)),
            decreases names.len() - i,
        {
            let s = from_chars(&names[i]);
            let p = PositionType::from_name(s.as_str());
            r.insert(p, 0);
            assert(ns.take(i + 1).drop_last() =~= ns.take(i as int));
            assert(ns.take(i + 1).last() == names@[i as int]@);
            i += 1;
        }
        assert(ns.take(names.len() as int) =~= ns);
        r
    }

    /// Set the positions from the tokens of a cost line
    pub fn set_iter_str(&mut self, tokens: &Vec<Vec<char>>)
        requires
            old(self).wf(),
            forall|i: int|
                0 <= i < old(self)@.len() && i < tokens.len() ==> parse_position(#[trigger] tokens@[i]@) is Some,
        ensures
            final(self).wf(),
            final(self).kinds() == old(self).kinds(),
            final(self).values() == set_positions(
                old(self).values(),
                tokens@.map_values(|t: Vec<char>| t@),
            ),
    {
        let ghost toks = tokens@.map_values(|t: Vec<char>| t@);
        let ghost old_values = self.values();
        let ghost old_kinds = self.kinds();
        let n = map_len(&self.map);
        let mut i: usize = 0;
        while i < n
            invariant
                0 <= i <= n,
                n == self@.len(),
                n == old_values.len(),
                self.wf(),
                toks == tokens@.map_values(|t: Vec<char>| t@),
                forall|j: int| 0 <= j < n && j < tokens.len() ==> parse_position(#[trigger] tokens@[j]@) is Some,
                self.kinds() == old_kinds,
                forall|j: int| 0 <= j < i ==> #[trigger] self.values()[j] == set_positions(old_values, toks)[j],
                forall|j: int| i <= j < n ==> #[trigger] self.values()[j] == old_values[j],
            decreases n - i,
        {
            if i < tokens.len() {
                let t = &tokens[i];
                let v = match strip_prefix_exec(t, "0x") {
                    Some(hex) => parse_u64_hex_exec(&hex),
                    None => parse_u64_exec(t),
                };
                assert(toks[i as int] == tokens@[i as int]@);
                assert(v == parse_position(toks[i as int]));
                match v {
                    Some(v) => {
                        let ghost before = map_entries(self.map);
                        let ghost before_values = self.values();
                        map_set_value_at(&mut self.map, i, v);
                        proof {
                            let after = map_entries(self.map);
                            assert(positions_view(after) =~= positions_view(before).update(
                                i as int,
                                (position_type_of(before[i as int].0), v),
                            ));
                            assert(self.kinds() =~= old_kinds);
                            assert(self.values() =~= before_values.update(i as int, v));
                            assert forall|a: int, b: int|
                                0 <= a < after.len() && 0 <= b < after.len() && a != b implies after[a].0
                                != after[b].0 by {
                                assert(before[a].0 != before[b].0);
                            }
                            assert forall|j: int| 0 <= j < after.len() implies #[trigger] after[j].0 < 2 by {
                                assert(before[j].0 < 2);
                            }
                        }
                    },
                    None => {},
                }
            }
            i += 1;
        }
        assert(self.values() =~= set_positions(old_values, toks));
    }

    /// Return the length of the positions
    pub fn len(&self) -> (r: usize)
        ensures
            r == self@.len(),
    {
        map_len(&self.map)
    }

    /// Return true if positions is empty
    pub fn is_empty(&self) -> (r: bool)
        ensures
            r == (self@.len() == 0),
    {
        map_len(&self.map) == 0
    }
}

/// The call relationship among functions
#[derive(Debug)]
pub struct Calls {
    /// The call count
    pub amount: u64,
    /// The target [`Positions`]
    pub positions: Positions,
}

impl Calls {
    /// Create new `Calls` from the tokens of a `calls=` line: the call count and then the target
    /// positions
    pub fn from(tokens: &Vec<Vec<char>>, positions: Positions) -> (r: Calls)
        requires
            tokens.len() > 0,
            parse_u64(tokens@[0]@) is Some,
            positions.wf(),
            forall|i: int|
                0 <= i < positions@.len() && i + 1 < tokens.len() ==> parse_position(#[trigger] tokens@[i + 1]@) is Some,
        ensures
            r.amount == parse_u64(tokens@[0]@).unwrap(),
            r.positions.wf(),
            r.positions.kinds() == positions.kinds(),
            r.positions.values() == set_positions(
                positions.values(),
                tokens@.skip(1).map_values(|t: Vec<char>| t@),
            ),
    {
        let amount = match parse_u64_exec(&tokens[0]) {
            Some(a) => a,
            None => 0,
        };
        let mut rest: Vec<Vec<char>> = Vec::new();
        let mut i: usize = 1;
        while i < tokens.len()
            invariant
                1 <= i <= tokens.len(),
                rest.len() == i - 1,
                forall|j: int| 0 <= j < rest.len() ==> #[trigger] rest@[j]@ == tokens@[j + 1]@,
            decreases tokens.len() - i,
        {
            let t = sub_chars(&tokens[i], 0, tokens[i].len());
            assert(t@ =~= tokens@[i as int]@);
            rest.push(t);
            i += 1;
        }
        assert(rest@.map_values(|t: Vec<char>| t@) =~= tokens@.skip(1).map_values(|t: Vec<char>| t@));
        assert forall|j: int| 0 <= j < positions@.len() && j < rest.len() implies parse_position(
            #[trigger] rest@[j]@,
        ) is Some by {
            assert(rest@[j]@ == tokens@[j + 1]@);
        }
        let mut positions = positions;
        positions.set_iter_str(&rest);
        Calls { amount, positions }
    }
}

} // verus!
