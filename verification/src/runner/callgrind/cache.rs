//! The cache summary of the callgrind counters: hits, accesses, estimated cycles and rates.
use vstd::prelude::*;

use crate::api::EventKind;
use crate::collections::{assoc_distinct, assoc_insert, lemma_assoc_insert, lemma_assoc_insert_get, lemma_assoc_insert_same};
use crate::runner::costs::{Costs, CostsError};

verus! {

/// `a + b`, at most `u64::MAX`.
pub open spec fn sat_add(a: int, b: int) -> int {
    if a + b > u64::MAX {
        u64::MAX as int
    } else {
        a + b
    }
}

/// `a - b`, at least zero.
pub open spec fn sat_sub(a: int, b: int) -> int {
    if a - b < 0 {
        0
    } else {
        a - b
    }
}

/// `a * b`, at most `u64::MAX`.
pub open spec fn sat_mul(a: int, b: int) -> int {
    if a * b > u64::MAX {
        u64::MAX as int
    } else {
        a * b
    }
}

/// A percentage as the quotient of two counts: `numerator / denominator * 100`, or zero where
/// the denominator is zero.
#[derive(Debug, Clone, Copy, PartialEq, Eq, Structural)]
pub struct Rate {
    pub numerator: u64,
    pub denominator: u64,
}

/// The cache summary of the counters of a callgrind run
#[derive(Debug, Clone, Copy, PartialEq, Eq, Structural)]
pub struct CacheSummary {
    pub l1_hits: u64,
    pub l3_hits: u64,
    pub ram_hits: u64,
    pub total_memory_rw: u64,
    pub cycles: u64,
    pub i1_miss_rate: Rate,
    pub d1_miss_rate: Rate,
    pub ll_miss_rate: Rate,
    pub lli_miss_rate: Rate,
    pub lld_miss_rate: Rate,
    pub l1_hit_rate: Rate,
    pub l3_hit_rate: Rate,
    pub ram_hit_rate: Rate,
}

/// The estimator of the cache summary from the counters of the cache simulation
#[derive(Debug, Clone, Copy)]
pub struct CyclesEstimator {
    pub instructions: u64,
    pub total_data_cache_reads: u64,
    pub total_data_cache_writes: u64,
    pub l1_instructions_cache_read_misses: u64,
    pub l1_data_cache_read_misses: u64,
    pub l1_data_cache_write_misses: u64,
    pub l3_instructions_cache_read_misses: u64,
    pub l3_data_cache_read_misses: u64,
    pub l3_data_cache_write_misses: u64,
}

/// `a * b`, at most `u64::MAX`
fn mul_saturating(a: u64, b: u64) -> (r: u64)
    ensures
        r == sat_mul(a as int, b as int),
{
    match a.checked_mul(b) {
        Some(x) => x,
        None => u64::MAX,
    }
}

impl CyclesEstimator {
    /// The RAM hits: the LL misses
    pub open spec fn ram_hits(self) -> int {
        sat_add(
            sat_add(self.l3_instructions_cache_read_misses as int, self.l3_data_cache_read_misses as int),
            self.l3_data_cache_write_misses as int,
        )
    }

    /// The L1 data misses
    pub open spec fn l1_data_accesses(self) -> int {
        sat_add(self.l1_data_cache_read_misses as int, self.l1_data_cache_write_misses as int)
    }

    /// The LL hits: the L1 misses that are no RAM hits
    pub open spec fn l3_hits(self) -> int {
        sat_sub(sat_add(self.l1_instructions_cache_read_misses as int, self.l1_data_accesses()), self.ram_hits())
    }

    /// The data accesses
    pub open spec fn d_refs(self) -> int {
        sat_add(self.total_data_cache_reads as int, self.total_data_cache_writes as int)
    }

    /// All memory accesses
    pub open spec fn total_memory_rw(self) -> int {
        sat_add(self.instructions as int, self.d_refs())
    }

    /// The L1 hits: the accesses that are neither RAM nor LL hits
    pub open spec fn l1_hits(self) -> int {
        sat_sub(sat_sub(self.total_memory_rw(), self.ram_hits()), self.l3_hits())
    }

    /// The estimated cycles: L1 hits weigh 1, LL hits 5 and RAM hits 35
    pub open spec fn cycles(self) -> int {
        sat_add(sat_add(self.l1_hits(), sat_mul(self.l3_hits(), 5)), sat_mul(self.ram_hits(), 35))
    }

    /// The summary of these counters, with saturating arithmetic
    pub open spec fn summary(self) -> CacheSummary {
        CacheSummary {
            l1_hits: self.l1_hits() as u64,
            l3_hits: self.l3_hits() as u64,
            ram_hits: self.ram_hits() as u64,
            total_memory_rw: self.total_memory_rw() as u64,
            cycles: self.cycles() as u64,
            i1_miss_rate: Rate { numerator: self.l1_instructions_cache_read_misses, denominator: self.instructions },
            d1_miss_rate: Rate { numerator: self.l1_data_accesses() as u64, denominator: self.d_refs() as u64 },
            ll_miss_rate: Rate { numerator: self.ram_hits() as u64, denominator: self.total_memory_rw() as u64 },
            lli_miss_rate: Rate { numerator: self.l3_instructions_cache_read_misses, denominator: self.instructions },
            lld_miss_rate: Rate {
                numerator: sat_add(self.l3_data_cache_read_misses as int, self.l3_data_cache_write_misses as int) as u64,
                denominator: self.d_refs() as u64,
            },
            l1_hit_rate: Rate { numerator: self.l1_hits() as u64, denominator: self.total_memory_rw() as u64 },
            l3_hit_rate: Rate { numerator: self.l3_hits() as u64, denominator: self.total_memory_rw() as u64 },
            ram_hit_rate: Rate { numerator: self.ram_hits() as u64, denominator: self.total_memory_rw() as u64 },
        }
    }

    /// Create a new estimator
    pub fn new(
        instructions: u64,
        total_data_cache_reads: u64,
        total_data_cache_writes: u64,
        l1_instructions_cache_read_misses: u64,
        l1_data_cache_read_misses: u64,
        l1_data_cache_write_misses: u64,
        l3_instructions_cache_read_misses: u64,
        l3_data_cache_read_misses: u64,
        l3_data_cache_write_misses: u64,
    ) -> (r: CyclesEstimator)
        ensures
            r.instructions == instructions,
            r.total_data_cache_reads == total_data_cache_reads,
            r.total_data_cache_writes == total_data_cache_writes,
            r.l1_instructions_cache_read_misses == l1_instructions_cache_read_misses,
            r.l1_data_cache_read_misses == l1_data_cache_read_misses,
            r.l1_data_cache_write_misses == l1_data_cache_write_misses,
            r.l3_instructions_cache_read_misses == l3_instructions_cache_read_misses,
            r.l3_data_cache_read_misses == l3_data_cache_read_misses,
            r.l3_data_cache_write_misses == l3_data_cache_write_misses,
    {
        CyclesEstimator {
            instructions,
            total_data_cache_reads,
            total_data_cache_writes,
            l1_instructions_cache_read_misses,
            l1_data_cache_read_misses,
            l1_data_cache_write_misses,
            l3_instructions_cache_read_misses,
            l3_data_cache_read_misses,
            l3_data_cache_write_misses,
        }
    }

    /// Calculate the cache summary: the RAM hits are the LL misses, the LL hits are the L1
    /// misses that are no RAM hits, the L1 hits the remaining accesses; the estimated cycles
    /// weigh L1 hits with 1, LL hits with 5 and RAM hits with 35. All counts saturate.
    pub fn calculate(&self) -> (r: CacheSummary)
        ensures
            r == self.summary(),
            r.cycles == (if r.l1_hits + 5 * r.l3_hits + 35 * r.ram_hits > u64::MAX {
                u64::MAX as int
            } else {
                r.l1_hits + 5 * r.l3_hits + 35 * r.ram_hits
            }),
    {
        proof {
            lemma_summary_weighs_hits(*self);
        }
        let ram_hits = self.l3_instructions_cache_read_misses.saturating_add(
            self.l3_data_cache_read_misses,
        ).saturating_add(self.l3_data_cache_write_misses);
        let l1_data_accesses = self.l1_data_cache_read_misses.saturating_add(
            self.l1_data_cache_write_misses,
        );
        let l1_miss = self.l1_instructions_cache_read_misses.saturating_add(l1_data_accesses);
        let l3_accesses = l1_miss;
        let l3_hits = l3_accesses.saturating_sub(ram_hits);
        let d_refs = self.total_data_cache_reads.saturating_add(self.total_data_cache_writes);
        let total_memory_rw = self.instructions.saturating_add(d_refs);
        let l1_hits = total_memory_rw.saturating_sub(ram_hits).saturating_sub(l3_hits);
        let cycles = l1_hits.saturating_add(mul_saturating(l3_hits, 5)).saturating_add(
            mul_saturating(ram_hits, 35),
        );
        let lld = self.l3_data_cache_read_misses.saturating_add(self.l3_data_cache_write_misses);
        CacheSummary {
            l1_hits,
            l3_hits,
            ram_hits,
            total_memory_rw,
            cycles,
            i1_miss_rate: Rate { numerator: self.l1_instructions_cache_read_misses, denominator: self.instructions },
            d1_miss_rate: Rate { numerator: l1_data_accesses, denominator: d_refs },
            ll_miss_rate: Rate { numerator: ram_hits, denominator: total_memory_rw },
            lli_miss_rate: Rate { numerator: self.l3_instructions_cache_read_misses, denominator: self.instructions },
            lld_miss_rate: Rate { numerator: lld, denominator: d_refs },
            l1_hit_rate: Rate { numerator: l1_hits, denominator: total_memory_rw },
            l3_hit_rate: Rate { numerator: l3_hits, denominator: total_memory_rw },
            ram_hit_rate: Rate { numerator: ram_hits, denominator: total_memory_rw },
        }
    }
}

/// The estimated cycles of a cache summary weigh its own hits: an L1 hit 1, an LL hit 5 and a
/// RAM hit 35, capped at `u64::MAX`. Where no sum overflows and the counts are consistent (no
/// more LL misses than L1 misses, no more L1 misses than accesses), the RAM hits are the LL
/// misses `ILmr + DLmr + DLmw`, the accesses `Ir + Dr + Dw`, the LL hits the L1 misses
/// `I1mr + D1mr + D1mw` less the RAM hits, and L1, LL and RAM hits add up to the accesses.
pub proof fn lemma_summary_weighs_hits(e: CyclesEstimator)
    ensures
        ({
            let s = e.summary();
            let w = s.l1_hits + 5 * s.l3_hits + 35 * s.ram_hits;
            s.cycles == (if w > u64::MAX { u64::MAX as int } else { w })
        }),
        ({
            let s = e.summary();
            let ram = e.l3_instructions_cache_read_misses + e.l3_data_cache_read_misses
                + e.l3_data_cache_write_misses;
            let l1_misses = e.l1_instructions_cache_read_misses + e.l1_data_cache_read_misses
                + e.l1_data_cache_write_misses;
            let total = e.instructions + e.total_data_cache_reads + e.total_data_cache_writes;
            total <= u64::MAX && l1_misses <= total && ram <= l1_misses ==> {
                &&& s.ram_hits == ram
                &&& s.total_memory_rw == total
                &&& s.l3_hits == l1_misses - ram
                &&& s.l1_hits == total - l1_misses
                &&& s.l1_hits + s.l3_hits + s.ram_hits == s.total_memory_rw
            }
        }),
{
}

/// The counts of `kinds` in `costs`, or the first kind that is missing.
pub open spec fn cost_of(costs: Seq<(EventKind, u64)>, kind: EventKind) -> Option<u64> {
    crate::collections::assoc_get(costs, kind)
}

/// The event kinds the cache summary reads, in order.
pub open spec fn cache_sim_kinds() -> Seq<EventKind> {
    seq![
        EventKind::Ir,
        EventKind::Dr,
        EventKind::Dw,
        EventKind::I1mr,
        EventKind::D1mr,
        EventKind::D1mw,
        EventKind::ILmr,
        EventKind::DLmr,
        EventKind::DLmw,
    ]
}

/// The estimator of the counts of the cache simulation in `costs`.
pub open spec fn estimator_of(costs: Seq<(EventKind, u64)>) -> CyclesEstimator {
    CyclesEstimator {
        instructions: cost_of(costs, EventKind::Ir).unwrap(),
        total_data_cache_reads: cost_of(costs, EventKind::Dr).unwrap(),
        total_data_cache_writes: cost_of(costs, EventKind::Dw).unwrap(),
        l1_instructions_cache_read_misses: cost_of(costs, EventKind::I1mr).unwrap(),
        l1_data_cache_read_misses: cost_of(costs, EventKind::D1mr).unwrap(),
        l1_data_cache_write_misses: cost_of(costs, EventKind::D1mw).unwrap(),
        l3_instructions_cache_read_misses: cost_of(costs, EventKind::ILmr).unwrap(),
        l3_data_cache_read_misses: cost_of(costs, EventKind::DLmr).unwrap(),
        l3_data_cache_write_misses: cost_of(costs, EventKind::DLmw).unwrap(),
    }
}

impl CacheSummary {
    /// The cache summary of the costs of a run with the cache simulation: the counts of `Ir Dr
    /// Dw I1mr D1mr D1mw ILmr DLmr DLmw` must be present; an error names the first that is not.
    pub fn try_from(costs: &Costs) -> (r: Result<CacheSummary, CostsError>)
        requires
            costs.wf(),
        ensures
            r is Ok <==> forall|i: int| 0 <= i < 9 ==> cost_of(costs@, #[trigger] cache_sim_kinds()[i]) is Some,
            r matches Ok(s) ==> s == estimator_of(costs@).summary(),
            r matches Err(CostsError::MissingEventKind(k)) ==> exists|i: int|
                0 <= i < 9 && #[trigger] cache_sim_kinds()[i] == k && cost_of(costs@, k) is None && forall|j: int|
                    0 <= j < i ==> cost_of(costs@, cache_sim_kinds()[j]) is Some,
    {
        let kinds: Vec<EventKind> = vec![
            EventKind::Ir,
            EventKind::Dr,
            EventKind::Dw,
            EventKind::I1mr,
            EventKind::D1mr,
            EventKind::D1mw,
            EventKind::ILmr,
            EventKind::DLmr,
            EventKind::DLmw,
        ];
        assert(kinds@ =~= cache_sim_kinds());
        let mut values: Vec<u64> = Vec::new();
        let mut i: usize = 0;
        while i < 9
            invariant
                0 <= i <= 9,
                costs.wf(),
                kinds@ == cache_sim_kinds(),
                values.len() == i,
                forall|j: int| 0 <= j < i ==> cost_of(costs@, #[trigger] cache_sim_kinds()[j]) == Some(values@[j]),
            decreases 9 - i,
        {
            match costs.try_cost_by_kind(&kinds[i]) {
                Ok(v) => {
                    values.push(v);
                },
                Err(e) => {
                    assert(cache_sim_kinds()[i as int] == kinds@[i as int]);
                    return Err(e);
                },
            }
            i += 1;
        }
        let estimator = CyclesEstimator::new(
            values[0],
            values[1],
            values[2],
            values[3],
            values[4],
            values[5],
            values[6],
            values[7],
            values[8],
        );
        proof {
            assert(cost_of(costs@, cache_sim_kinds()[0]) == Some(values@[0]));
            assert(cost_of(costs@, cache_sim_kinds()[1]) == Some(values@[1]));
            assert(cost_of(costs@, cache_sim_kinds()[2]) == Some(values@[2]));
            assert(cost_of(costs@, cache_sim_kinds()[3]) == Some(values@[3]));
            assert(cost_of(costs@, cache_sim_kinds()[4]) == Some(values@[4]));
            assert(cost_of(costs@, cache_sim_kinds()[5]) == Some(values@[5]));
            assert(cost_of(costs@, cache_sim_kinds()[6]) == Some(values@[6]));
            assert(cost_of(costs@, cache_sim_kinds()[7]) == Some(values@[7]));
            assert(cost_of(costs@, cache_sim_kinds()[8]) == Some(values@[8]));
            assert(estimator == estimator_of(costs@));
        }
        Ok(estimator.calculate())
    }
}

/// The costs hold every count of the cache simulation.
pub open spec fn summarizable(costs: Seq<(EventKind, u64)>) -> bool {
    forall|i: int| 0 <= i < 9 ==> cost_of(costs, #[trigger] cache_sim_kinds()[i]) is Some
}

/// The costs with the derived events of the cache summary set: `L1hits`, `LLhits`, `RamHits`,
/// `TotalRW` and `EstimatedCycles`, in this order.
pub open spec fn summarized(costs: Seq<(EventKind, u64)>) -> Seq<(EventKind, u64)> {
    let s = estimator_of(costs).summary();
    assoc_insert(
        assoc_insert(
            assoc_insert(
                assoc_insert(assoc_insert(costs, EventKind::L1hits, s.l1_hits), EventKind::LLhits, s.l3_hits),
                EventKind::RamHits,
                s.ram_hits,
            ),
            EventKind::TotalRW,
            s.total_memory_rw,
        ),
        EventKind::EstimatedCycles,
        s.cycles,
    )
}

impl Costs {
    /// Calculate and add the derived events of the cache summary in place: `L1hits`, `LLhits`,
    /// `RamHits`, `TotalRW` and `EstimatedCycles`. Further calls overwrite them. An error if a
    /// count of the cache simulation is missing.
    pub fn make_summary(&mut self) -> (r: Result<(), CostsError>)
        requires
            old(self).wf(),
        ensures
            final(self).wf(),
            r is Ok <==> summarizable(old(self)@),
            r is Err ==> final(self)@ == old(self)@,
            r is Ok ==> final(self)@ == summarized(old(self)@),
    {
        let summary = match CacheSummary::try_from(self) {
            Ok(s) => s,
            Err(e) => return Err(e),
        };
        self.insert(EventKind::L1hits, summary.l1_hits);
        self.insert(EventKind::LLhits, summary.l3_hits);
        self.insert(EventKind::RamHits, summary.ram_hits);
        self.insert(EventKind::TotalRW, summary.total_memory_rw);
        self.insert(EventKind::EstimatedCycles, summary.cycles);
        Ok(())
    }

    /// Return true if the costs are already summarized: the estimated cycles are present
    pub fn is_summarized(&self) -> (r: bool)
        requires
            self.wf(),
        ensures
            r == (cost_of(self@, EventKind::EstimatedCycles) is Some),
    {
        self.cost_by_kind(&EventKind::EstimatedCycles).is_some()
    }

    /// Return true if the costs can be summarized: `I1mr` of the cache simulation is present
    pub fn can_summarize(&self) -> (r: bool)
        requires
            self.wf(),
        ensures
            r == (cost_of(self@, EventKind::I1mr) is Some),
    {
        self.cost_by_kind(&EventKind::I1mr).is_some()
    }
}

/// The summary leaves the counts of the cache simulation as they are.
proof fn lemma_summarized_keeps(c: Seq<(EventKind, u64)>, k: EventKind)
    requires
        assoc_distinct(c),
        k != EventKind::L1hits,
        k != EventKind::LLhits,
        k != EventKind::RamHits,
        k != EventKind::TotalRW,
        k != EventKind::EstimatedCycles,
    ensures
        assoc_distinct(summarized(c)),
        cost_of(summarized(c), k) == cost_of(c, k),
{
    let s = estimator_of(c).summary();
    let c1 = assoc_insert(c, EventKind::L1hits, s.l1_hits);
    let c2 = assoc_insert(c1, EventKind::LLhits, s.l3_hits);
    let c3 = assoc_insert(c2, EventKind::RamHits, s.ram_hits);
    let c4 = assoc_insert(c3, EventKind::TotalRW, s.total_memory_rw);
    lemma_assoc_insert(c, EventKind::L1hits, s.l1_hits);
    lemma_assoc_insert(c1, EventKind::LLhits, s.l3_hits);
    lemma_assoc_insert(c2, EventKind::RamHits, s.ram_hits);
    lemma_assoc_insert(c3, EventKind::TotalRW, s.total_memory_rw);
    lemma_assoc_insert(c4, EventKind::EstimatedCycles, s.cycles);
    lemma_assoc_insert_get(c, EventKind::L1hits, s.l1_hits, k);
    lemma_assoc_insert_get(c1, EventKind::LLhits, s.l3_hits, k);
    lemma_assoc_insert_get(c2, EventKind::RamHits, s.ram_hits, k);
    lemma_assoc_insert_get(c3, EventKind::TotalRW, s.total_memory_rw, k);
    lemma_assoc_insert_get(c4, EventKind::EstimatedCycles, s.cycles, k);
}

/// Calculating the summary again changes nothing: the counts it reads are not among those it
/// writes, so a further call overwrites the derived events with the same values.
pub proof fn lemma_summary_idempotent(c: Seq<(EventKind, u64)>)
    requires
        assoc_distinct(c),
        summarizable(c),
    ensures
        summarizable(summarized(c)),
        summarized(summarized(c)) == summarized(c),
{
    let t = summarized(c);
    lemma_summarized_keeps(c, EventKind::Ir);
    lemma_summarized_keeps(c, EventKind::Dr);
    lemma_summarized_keeps(c, EventKind::Dw);
    lemma_summarized_keeps(c, EventKind::I1mr);
    lemma_summarized_keeps(c, EventKind::D1mr);
    lemma_summarized_keeps(c, EventKind::D1mw);
    lemma_summarized_keeps(c, EventKind::ILmr);
    lemma_summarized_keeps(c, EventKind::DLmr);
    lemma_summarized_keeps(c, EventKind::DLmw);
    assert(estimator_of(t) == estimator_of(c));
    assert forall|i: int| 0 <= i < 9 implies cost_of(t, #[trigger] cache_sim_kinds()[i]) is Some by {
        assert(cost_of(c, cache_sim_kinds()[i]) is Some);
    }
    let s = estimator_of(c).summary();
    let c1 = assoc_insert(c, EventKind::L1hits, s.l1_hits);
    let c2 = assoc_insert(c1, EventKind::LLhits, s.l3_hits);
    let c3 = assoc_insert(c2, EventKind::RamHits, s.ram_hits);
    let c4 = assoc_insert(c3, EventKind::TotalRW, s.total_memory_rw);
    lemma_assoc_insert(c, EventKind::L1hits, s.l1_hits);
    lemma_assoc_insert(c1, EventKind::LLhits, s.l3_hits);
    lemma_assoc_insert(c2, EventKind::RamHits, s.ram_hits);
    lemma_assoc_insert(c3, EventKind::TotalRW, s.total_memory_rw);
    lemma_assoc_insert(c4, EventKind::EstimatedCycles, s.cycles);
    lemma_assoc_insert_get(c, EventKind::L1hits, s.l1_hits, EventKind::L1hits);
    lemma_assoc_insert_get(c1, EventKind::LLhits, s.l3_hits, EventKind::L1hits);
    lemma_assoc_insert_get(c2, EventKind::RamHits, s.ram_hits, EventKind::L1hits);
    lemma_assoc_insert_get(c3, EventKind::TotalRW, s.total_memory_rw, EventKind::L1hits);
    lemma_assoc_insert_get(c4, EventKind::EstimatedCycles, s.cycles, EventKind::L1hits);
    lemma_assoc_insert_get(c1, EventKind::LLhits, s.l3_hits, EventKind::LLhits);
    lemma_assoc_insert_get(c2, EventKind::RamHits, s.ram_hits, EventKind::LLhits);
    lemma_assoc_insert_get(c3, EventKind::TotalRW, s.total_memory_rw, EventKind::LLhits);
    lemma_assoc_insert_get(c4, EventKind::EstimatedCycles, s.cycles, EventKind::LLhits);
    lemma_assoc_insert_get(c2, EventKind::RamHits, s.ram_hits, EventKind::RamHits);
    lemma_assoc_insert_get(c3, EventKind::TotalRW, s.total_memory_rw, EventKind::RamHits);
    lemma_assoc_insert_get(c4, EventKind::EstimatedCycles, s.cycles, EventKind::RamHits);
    lemma_assoc_insert_get(c3, EventKind::TotalRW, s.total_memory_rw, EventKind::TotalRW);
    lemma_assoc_insert_get(c4, EventKind::EstimatedCycles, s.cycles, EventKind::TotalRW);
    lemma_assoc_insert_get(c4, EventKind::EstimatedCycles, s.cycles, EventKind::EstimatedCycles);
    lemma_assoc_insert_same(t, EventKind::L1hits, s.l1_hits);
    lemma_assoc_insert_same(t, EventKind::LLhits, s.l3_hits);
    lemma_assoc_insert_same(t, EventKind::RamHits, s.ram_hits);
    lemma_assoc_insert_same(t, EventKind::TotalRW, s.total_memory_rw);
    lemma_assoc_insert_same(t, EventKind::EstimatedCycles, s.cycles);
}

} // verus!
