//! The model of the benchmark configuration shared between the benchmark harness and the
//! runner: event kinds, metric groups, tools and the configuration structs.
use vstd::prelude::*;

use indexmap::IndexSet;

use crate::collections::{set_get_index, set_insert, set_insert_spec, set_items, set_len, set_new};
use crate::text::{append_chars, eq_str, from_chars, owned, to_chars, to_lowercase};

verus! {

/// All `EventKind`s callgrind produces and additionally some derived events
///
/// Depending on the options passed to Callgrind, these are the events that Callgrind can produce.
/// See the [Callgrind
/// documentation](https://valgrind.org/docs/manual/cl-manual.html#cl-manual.options) for details.
#[derive(Debug, Clone, Copy, Hash, PartialEq, Eq, Structural)]
pub enum EventKind {
    /// The default event. I cache reads (which equals the number of instructions executed)
    Ir,
    /// D Cache reads (which equals the number of memory reads) (--cache-sim=yes)
    Dr,
    /// D Cache writes (which equals the number of memory writes) (--cache-sim=yes)
    Dw,
    /// I1 cache read misses (--cache-sim=yes)
    I1mr,
    /// D1 cache read misses (--cache-sim=yes)
    D1mr,
    /// D1 cache write misses (--cache-sim=yes)
    D1mw,
    /// LL cache instruction read misses (--cache-sim=yes)
    ILmr,
    /// LL cache data read misses (--cache-sim=yes)
    DLmr,
    /// LL cache data write misses (--cache-sim=yes)
    DLmw,
    /// Derived event showing the L1 hits (--cache-sim=yes)
    L1hits,
    /// Derived event showing the LL hits (--cache-sim=yes)
    LLhits,
    /// Derived event showing the RAM hits (--cache-sim=yes)
    RamHits,
    /// Derived event showing the total amount of cache reads and writes (--cache-sim=yes)
    TotalRW,
    /// Derived event showing estimated CPU cycles (--cache-sim=yes)
    EstimatedCycles,
    /// The number of system calls done (--collect-systime=yes)
    SysCount,
    /// The elapsed time spent in system calls (--collect-systime=yes)
    SysTime,
    /// The cpu time spent during system calls (--collect-systime=nsec)
    SysCpuTime,
    /// The number of global bus events (--collect-bus=yes)
    Ge,
    /// Conditional branches executed (--branch-sim=yes)
    Bc,
    /// Conditional branches mispredicted (--branch-sim=yes)
    Bcm,
    /// Indirect branches executed (--branch-sim=yes)
    Bi,
    /// Indirect branches mispredicted (--branch-sim=yes)
    Bim,
    /// Dirty miss because of instruction read (--simulate-wb=yes)
    ILdmr,
    /// Dirty miss because of data read (--simulate-wb=yes)
    DLdmr,
    /// Dirty miss because of data write (--simulate-wb=yes)
    DLdmw,
    /// Counter showing bad temporal locality for L1 caches (--cachuse=yes)
    AcCost1,
    /// Counter showing bad temporal locality for LL caches (--cachuse=yes)
    AcCost2,
    /// Counter showing bad spatial locality for L1 caches (--cachuse=yes)
    SpLoss1,
    /// Counter showing bad spatial locality for LL caches (--cachuse=yes)
    SpLoss2,
}

impl EventKind {
    /// The position of this kind in the declaration order (the order of [`EventKind::all`]).
    pub open spec fn spec_index(self) -> u8 {
        match self {
            EventKind::Ir => 0u8,
            EventKind::Dr => 1u8,
            EventKind::Dw => 2u8,
            EventKind::I1mr => 3u8,
            EventKind::D1mr => 4u8,
            EventKind::D1mw => 5u8,
            EventKind::ILmr => 6u8,
            EventKind::DLmr => 7u8,
            EventKind::DLmw => 8u8,
            EventKind::L1hits => 9u8,
            EventKind::LLhits => 10u8,
            EventKind::RamHits => 11u8,
            EventKind::TotalRW => 12u8,
            EventKind::EstimatedCycles => 13u8,
            EventKind::SysCount => 14u8,
            EventKind::SysTime => 15u8,
            EventKind::SysCpuTime => 16u8,
            EventKind::Ge => 17u8,
            EventKind::Bc => 18u8,
            EventKind::Bcm => 19u8,
            EventKind::Bi => 20u8,
            EventKind::Bim => 21u8,
            EventKind::ILdmr => 22u8,
            EventKind::DLdmr => 23u8,
            EventKind::DLdmw => 24u8,
            EventKind::AcCost1 => 25u8,
            EventKind::AcCost2 => 26u8,
            EventKind::SpLoss1 => 27u8,
            EventKind::SpLoss2 => 28u8,
        }
    }

    /// The kind at a position of the declaration order.
    pub open spec fn spec_from_index(i: u8) -> Option<EventKind> {
        if i == 0 {
            Some(EventKind::Ir)
        } else if i == 1 {
            Some(EventKind::Dr)
        } else if i == 2 {
            Some(EventKind::Dw)
        } else if i == 3 {
            Some(EventKind::I1mr)
        } else if i == 4 {
            Some(EventKind::D1mr)
        } else if i == 5 {
            Some(EventKind::D1mw)
        } else if i == 6 {
            Some(EventKind::ILmr)
        } else if i == 7 {
            Some(EventKind::DLmr)
        } else if i == 8 {
            Some(EventKind::DLmw)
        } else if i == 9 {
            Some(EventKind::L1hits)
        } else if i == 10 {
            Some(EventKind::LLhits)
        } else if i == 11 {
            Some(EventKind::RamHits)
        } else if i == 12 {
            Some(EventKind::TotalRW)
        } else if i == 13 {
            Some(EventKind::EstimatedCycles)
        } else if i == 14 {
            Some(EventKind::SysCount)
        } else if i == 15 {
            Some(EventKind::SysTime)
        } else if i == 16 {
            Some(EventKind::SysCpuTime)
        } else if i == 17 {
            Some(EventKind::Ge)
        } else if i == 18 {
            Some(EventKind::Bc)
        } else if i == 19 {
            Some(EventKind::Bcm)
        } else if i == 20 {
            Some(EventKind::Bi)
        } else if i == 21 {
            Some(EventKind::Bim)
        } else if i == 22 {
            Some(EventKind::ILdmr)
        } else if i == 23 {
            Some(EventKind::DLdmr)
        } else if i == 24 {
            Some(EventKind::DLdmw)
        } else if i == 25 {
            Some(EventKind::AcCost1)
        } else if i == 26 {
            Some(EventKind::AcCost2)
        } else if i == 27 {
            Some(EventKind::SpLoss1)
        } else if i == 28 {
            Some(EventKind::SpLoss2)
        } else {
            None
        }
    }

    /// The event names of the `events:` line of callgrind output files.
    pub open spec fn spec_from_name(s: Seq<char>) -> Option<EventKind> {
        if s == "Ir"@ {
            Some(EventKind::Ir)
        } else if s == "Dr"@ {
            Some(EventKind::Dr)
        } else if s == "Dw"@ {
            Some(EventKind::Dw)
        } else if s == "I1mr"@ {
            Some(EventKind::I1mr)
        } else if s == "D1mr"@ {
            Some(EventKind::D1mr)
        } else if s == "D1mw"@ {
            Some(EventKind::D1mw)
        } else if s == "ILmr"@ {
            Some(EventKind::ILmr)
        } else if s == "DLmr"@ {
            Some(EventKind::DLmr)
        } else if s == "DLmw"@ {
            Some(EventKind::DLmw)
        } else if s == "L1hits"@ {
            Some(EventKind::L1hits)
        } else if s == "LLhits"@ {
            Some(EventKind::LLhits)
        } else if s == "RamHits"@ {
            Some(EventKind::RamHits)
        } else if s == "TotalRW"@ {
            Some(EventKind::TotalRW)
        } else if s == "EstimatedCycles"@ {
            Some(EventKind::EstimatedCycles)
        } else if s == "sysCount"@ {
            Some(EventKind::SysCount)
        } else if s == "sysTime"@ {
            Some(EventKind::SysTime)
        } else if s == "sysCpuTime"@ {
            Some(EventKind::SysCpuTime)
        } else if s == "Ge"@ {
            Some(EventKind::Ge)
        } else if s == "Bc"@ {
            Some(EventKind::Bc)
        } else if s == "Bcm"@ {
            Some(EventKind::Bcm)
        } else if s == "Bi"@ {
            Some(EventKind::Bi)
        } else if s == "Bim"@ {
            Some(EventKind::Bim)
        } else if s == "ILdmr"@ {
            Some(EventKind::ILdmr)
        } else if s == "DLdmr"@ {
            Some(EventKind::DLdmr)
        } else if s == "DLdmw"@ {
            Some(EventKind::DLdmw)
        } else if s == "AcCost1"@ {
            Some(EventKind::AcCost1)
        } else if s == "AcCost2"@ {
            Some(EventKind::AcCost2)
        } else if s == "SpLoss1"@ {
            Some(EventKind::SpLoss1)
        } else if s == "SpLoss2"@ {
            Some(EventKind::SpLoss2)
        } else {
            None
        }
    }

    /// The lowercase names accepted by [`EventKind::from_str_ignore_case`].
    pub open spec fn spec_from_lowercase_name(s: Seq<char>) -> Option<EventKind> {
        if s == "ir"@ {
            Some(EventKind::Ir)
        } else if s == "dr"@ {
            Some(EventKind::Dr)
        } else if s == "dw"@ {
            Some(EventKind::Dw)
        } else if s == "i1mr"@ {
            Some(EventKind::I1mr)
        } else if s == "d1mr"@ {
            Some(EventKind::D1mr)
        } else if s == "d1mw"@ {
            Some(EventKind::D1mw)
        } else if s == "ilmr"@ {
            Some(EventKind::ILmr)
        } else if s == "dlmr"@ {
            Some(EventKind::DLmr)
        } else if s == "dlmw"@ {
            Some(EventKind::DLmw)
        } else if s == "l1hits"@ {
            Some(EventKind::L1hits)
        } else if s == "llhits"@ {
            Some(EventKind::LLhits)
        } else if s == "ramhits"@ {
            Some(EventKind::RamHits)
        } else if s == "totalrw"@ {
            Some(EventKind::TotalRW)
        } else if s == "estimatedcycles"@ {
            Some(EventKind::EstimatedCycles)
        } else if s == "syscount"@ {
            Some(EventKind::SysCount)
        } else if s == "systime"@ {
            Some(EventKind::SysTime)
        } else if s == "syscputime"@ {
            Some(EventKind::SysCpuTime)
        } else if s == "ge"@ {
            Some(EventKind::Ge)
        } else if s == "bc"@ {
            Some(EventKind::Bc)
        } else if s == "bcm"@ {
            Some(EventKind::Bcm)
        } else if s == "bi"@ {
            Some(EventKind::Bi)
        } else if s == "bim"@ {
            Some(EventKind::Bim)
        } else if s == "ildmr"@ {
            Some(EventKind::ILdmr)
        } else if s == "dldmr"@ {
            Some(EventKind::DLdmr)
        } else if s == "dldmw"@ {
            Some(EventKind::DLdmw)
        } else if s == "accost1"@ {
            Some(EventKind::AcCost1)
        } else if s == "accost2"@ {
            Some(EventKind::AcCost2)
        } else if s == "sploss1"@ {
            Some(EventKind::SpLoss1)
        } else if s == "sploss2"@ {
            Some(EventKind::SpLoss2)
        } else {
            None
        }
    }

    /// The name of the variant.
    pub open spec fn spec_name(self) -> Seq<char> {
        match self {
            EventKind::Ir => "Ir"@,
            EventKind::Dr => "Dr"@,
            EventKind::Dw => "Dw"@,
            EventKind::I1mr => "I1mr"@,
            EventKind::D1mr => "D1mr"@,
            EventKind::D1mw => "D1mw"@,
            EventKind::ILmr => "ILmr"@,
            EventKind::DLmr => "DLmr"@,
            EventKind::DLmw => "DLmw"@,
            EventKind::L1hits => "L1hits"@,
            EventKind::LLhits => "LLhits"@,
            EventKind::RamHits => "RamHits"@,
            EventKind::TotalRW => "TotalRW"@,
            EventKind::EstimatedCycles => "EstimatedCycles"@,
            EventKind::SysCount => "SysCount"@,
            EventKind::SysTime => "SysTime"@,
            EventKind::SysCpuTime => "SysCpuTime"@,
            EventKind::Ge => "Ge"@,
            EventKind::Bc => "Bc"@,
            EventKind::Bcm => "Bcm"@,
            EventKind::Bi => "Bi"@,
            EventKind::Bim => "Bim"@,
            EventKind::ILdmr => "ILdmr"@,
            EventKind::DLdmr => "DLdmr"@,
            EventKind::DLdmw => "DLdmw"@,
            EventKind::AcCost1 => "AcCost1"@,
            EventKind::AcCost2 => "AcCost2"@,
            EventKind::SpLoss1 => "SpLoss1"@,
            EventKind::SpLoss2 => "SpLoss2"@,
        }
    }

    /// The human-readable name used in terminal output.
    pub open spec fn spec_display(self) -> Seq<char> {
        match self {
            EventKind::Ir => "Instructions"@,
            EventKind::Dr => "Dr"@,
            EventKind::Dw => "Dw"@,
            EventKind::I1mr => "I1mr"@,
            EventKind::D1mr => "D1mr"@,
            EventKind::D1mw => "D1mw"@,
            EventKind::ILmr => "ILmr"@,
            EventKind::DLmr => "DLmr"@,
            EventKind::DLmw => "DLmw"@,
            EventKind::L1hits => "L1 Hits"@,
            EventKind::LLhits => "L2 Hits"@,
            EventKind::RamHits => "RAM Hits"@,
            EventKind::TotalRW => "Total read+write"@,
            EventKind::EstimatedCycles => "Estimated Cycles"@,
            EventKind::SysCount => "SysCount"@,
            EventKind::SysTime => "SysTime"@,
            EventKind::SysCpuTime => "SysCpuTime"@,
            EventKind::Ge => "Ge"@,
            EventKind::Bc => "Bc"@,
            EventKind::Bcm => "Bcm"@,
            EventKind::Bi => "Bi"@,
            EventKind::Bim => "Bim"@,
            EventKind::ILdmr => "ILdmr"@,
            EventKind::DLdmr => "DLdmr"@,
            EventKind::DLdmw => "DLdmw"@,
            EventKind::AcCost1 => "AcCost1"@,
            EventKind::AcCost2 => "AcCost2"@,
            EventKind::SpLoss1 => "SpLoss1"@,
            EventKind::SpLoss2 => "SpLoss2"@,
        }
    }

    /// The position of this kind in the declaration order
    pub fn to_index(&self) -> (r: u8)
        ensures
            r == self.spec_index(),
    {
        match self {
            EventKind::Ir => 0,
            EventKind::Dr => 1,
            EventKind::Dw => 2,
            EventKind::I1mr => 3,
            EventKind::D1mr => 4,
            EventKind::D1mw => 5,
            EventKind::ILmr => 6,
            EventKind::DLmr => 7,
            EventKind::DLmw => 8,
            EventKind::L1hits => 9,
            EventKind::LLhits => 10,
            EventKind::RamHits => 11,
            EventKind::TotalRW => 12,
            EventKind::EstimatedCycles => 13,
            EventKind::SysCount => 14,
            EventKind::SysTime => 15,
            EventKind::SysCpuTime => 16,
            EventKind::Ge => 17,
            EventKind::Bc => 18,
            EventKind::Bcm => 19,
            EventKind::Bi => 20,
            EventKind::Bim => 21,
            EventKind::ILdmr => 22,
            EventKind::DLdmr => 23,
            EventKind::DLdmw => 24,
            EventKind::AcCost1 => 25,
            EventKind::AcCost2 => 26,
            EventKind::SpLoss1 => 27,
            EventKind::SpLoss2 => 28,
        }
    }

    /// The kind at position `i` of the declaration order, if any
    pub fn from_index(i: u8) -> (r: Option<EventKind>)
        ensures
            r == Self::spec_from_index(i),
    {
        if i == 0 {
            Some(EventKind::Ir)
        } else if i == 1 {
            Some(EventKind::Dr)
        } else if i == 2 {
            Some(EventKind::Dw)
        } else if i == 3 {
            Some(EventKind::I1mr)
        } else if i == 4 {
            Some(EventKind::D1mr)
        } else if i == 5 {
            Some(EventKind::D1mw)
        } else if i == 6 {
            Some(EventKind::ILmr)
        } else if i == 7 {
            Some(EventKind::DLmr)
        } else if i == 8 {
            Some(EventKind::DLmw)
        } else if i == 9 {
            Some(EventKind::L1hits)
        } else if i == 10 {
            Some(EventKind::LLhits)
        } else if i == 11 {
            Some(EventKind::RamHits)
        } else if i == 12 {
            Some(EventKind::TotalRW)
        } else if i == 13 {
            Some(EventKind::EstimatedCycles)
        } else if i == 14 {
            Some(EventKind::SysCount)
        } else if i == 15 {
            Some(EventKind::SysTime)
        } else if i == 16 {
            Some(EventKind::SysCpuTime)
        } else if i == 17 {
            Some(EventKind::Ge)
        } else if i == 18 {
            Some(EventKind::Bc)
        } else if i == 19 {
            Some(EventKind::Bcm)
        } else if i == 20 {
            Some(EventKind::Bi)
        } else if i == 21 {
            Some(EventKind::Bim)
        } else if i == 22 {
            Some(EventKind::ILdmr)
        } else if i == 23 {
            Some(EventKind::DLdmr)
        } else if i == 24 {
            Some(EventKind::DLdmw)
        } else if i == 25 {
            Some(EventKind::AcCost1)
        } else if i == 26 {
            Some(EventKind::AcCost2)
        } else if i == 27 {
            Some(EventKind::SpLoss1)
        } else if i == 28 {
            Some(EventKind::SpLoss2)
        } else {
            None
        }
    }

    /// The kind with the event name `value` as it appears in the `events:` line of a callgrind
    /// output file, if any
    pub fn try_from_name(value: &Vec<char>) -> (r: Option<EventKind>)
        ensures
            r == Self::spec_from_name(value@),
    {
        if eq_str(value, "Ir") {
            Some(EventKind::Ir)
        } else if eq_str(value, "Dr") {
            Some(EventKind::Dr)
        } else if eq_str(value, "Dw") {
            Some(EventKind::Dw)
        } else if eq_str(value, "I1mr") {
            Some(EventKind::I1mr)
        } else if eq_str(value, "D1mr") {
            Some(EventKind::D1mr)
        } else if eq_str(value, "D1mw") {
            Some(EventKind::D1mw)
        } else if eq_str(value, "ILmr") {
            Some(EventKind::ILmr)
        } else if eq_str(value, "DLmr") {
            Some(EventKind::DLmr)
        } else if eq_str(value, "DLmw") {
            Some(EventKind::DLmw)
        } else if eq_str(value, "L1hits") {
            Some(EventKind::L1hits)
        } else if eq_str(value, "LLhits") {
            Some(EventKind::LLhits)
        } else if eq_str(value, "RamHits") {
            Some(EventKind::RamHits)
        } else if eq_str(value, "TotalRW") {
            Some(EventKind::TotalRW)
        } else if eq_str(value, "EstimatedCycles") {
            Some(EventKind::EstimatedCycles)
        } else if eq_str(value, "sysCount") {
            Some(EventKind::SysCount)
        } else if eq_str(value, "sysTime") {
            Some(EventKind::SysTime)
        } else if eq_str(value, "sysCpuTime") {
            Some(EventKind::SysCpuTime)
        } else if eq_str(value, "Ge") {
            Some(EventKind::Ge)
        } else if eq_str(value, "Bc") {
            Some(EventKind::Bc)
        } else if eq_str(value, "Bcm") {
            Some(EventKind::Bcm)
        } else if eq_str(value, "Bi") {
            Some(EventKind::Bi)
        } else if eq_str(value, "Bim") {
            Some(EventKind::Bim)
        } else if eq_str(value, "ILdmr") {
            Some(EventKind::ILdmr)
        } else if eq_str(value, "DLdmr") {
            Some(EventKind::DLdmr)
        } else if eq_str(value, "DLdmw") {
            Some(EventKind::DLdmw)
        } else if eq_str(value, "AcCost1") {
            Some(EventKind::AcCost1)
        } else if eq_str(value, "AcCost2") {
            Some(EventKind::AcCost2)
        } else if eq_str(value, "SpLoss1") {
            Some(EventKind::SpLoss1)
        } else if eq_str(value, "SpLoss2") {
            Some(EventKind::SpLoss2)
        } else {
            None
        }
    }

    fn from_lowercase_name(value: &Vec<char>) -> (r: Option<EventKind>)
        ensures
            r == Self::spec_from_lowercase_name(value@),
    {
        if eq_str(value, "ir") {
            Some(EventKind::Ir)
        } else if eq_str(value, "dr") {
            Some(EventKind::Dr)
        } else if eq_str(value, "dw") {
            Some(EventKind::Dw)
        } else if eq_str(value, "i1mr") {
            Some(EventKind::I1mr)
        } else if eq_str(value, "d1mr") {
            Some(EventKind::D1mr)
        } else if eq_str(value, "d1mw") {
            Some(EventKind::D1mw)
        } else if eq_str(value, "ilmr") {
            Some(EventKind::ILmr)
        } else if eq_str(value, "dlmr") {
            Some(EventKind::DLmr)
        } else if eq_str(value, "dlmw") {
            Some(EventKind::DLmw)
        } else if eq_str(value, "l1hits") {
            Some(EventKind::L1hits)
        } else if eq_str(value, "llhits") {
            Some(EventKind::LLhits)
        } else if eq_str(value, "ramhits") {
            Some(EventKind::RamHits)
        } else if eq_str(value, "totalrw") {
            Some(EventKind::TotalRW)
        } else if eq_str(value, "estimatedcycles") {
            Some(EventKind::EstimatedCycles)
        } else if eq_str(value, "syscount") {
            Some(EventKind::SysCount)
        } else if eq_str(value, "systime") {
            Some(EventKind::SysTime)
        } else if eq_str(value, "syscputime") {
            Some(EventKind::SysCpuTime)
        } else if eq_str(value, "ge") {
            Some(EventKind::Ge)
        } else if eq_str(value, "bc") {
            Some(EventKind::Bc)
        } else if eq_str(value, "bcm") {
            Some(EventKind::Bcm)
        } else if eq_str(value, "bi") {
            Some(EventKind::Bi)
        } else if eq_str(value, "bim") {
            Some(EventKind::Bim)
        } else if eq_str(value, "ildmr") {
            Some(EventKind::ILdmr)
        } else if eq_str(value, "dldmr") {
            Some(EventKind::DLdmr)
        } else if eq_str(value, "dldmw") {
            Some(EventKind::DLdmw)
        } else if eq_str(value, "accost1") {
            Some(EventKind::AcCost1)
        } else if eq_str(value, "accost2") {
            Some(EventKind::AcCost2)
        } else if eq_str(value, "sploss1") {
            Some(EventKind::SpLoss1)
        } else if eq_str(value, "sploss2") {
            Some(EventKind::SpLoss2)
        } else {
            None
        }
    }

    /// The name of the variant (the `Debug` representation)
    pub fn to_name(&self) -> (r: String)
        ensures
            r@ == self.spec_name(),
    {
        match self {
            EventKind::Ir => owned("Ir"),
            EventKind::Dr => owned("Dr"),
            EventKind::Dw => owned("Dw"),
            EventKind::I1mr => owned("I1mr"),
            EventKind::D1mr => owned("D1mr"),
            EventKind::D1mw => owned("D1mw"),
            EventKind::ILmr => owned("ILmr"),
            EventKind::DLmr => owned("DLmr"),
            EventKind::DLmw => owned("DLmw"),
            EventKind::L1hits => owned("L1hits"),
            EventKind::LLhits => owned("LLhits"),
            EventKind::RamHits => owned("RamHits"),
            EventKind::TotalRW => owned("TotalRW"),
            EventKind::EstimatedCycles => owned("EstimatedCycles"),
            EventKind::SysCount => owned("SysCount"),
            EventKind::SysTime => owned("SysTime"),
            EventKind::SysCpuTime => owned("SysCpuTime"),
            EventKind::Ge => owned("Ge"),
            EventKind::Bc => owned("Bc"),
            EventKind::Bcm => owned("Bcm"),
            EventKind::Bi => owned("Bi"),
            EventKind::Bim => owned("Bim"),
            EventKind::ILdmr => owned("ILdmr"),
            EventKind::DLdmr => owned("DLdmr"),
            EventKind::DLdmw => owned("DLdmw"),
            EventKind::AcCost1 => owned("AcCost1"),
            EventKind::AcCost2 => owned("AcCost2"),
            EventKind::SpLoss1 => owned("SpLoss1"),
            EventKind::SpLoss2 => owned("SpLoss2"),
        }
    }

    /// The human-readable name of this kind as shown in the terminal output
    pub fn to_string(&self) -> (r: String)
        ensures
            r@ == self.spec_display(),
    {
        match self {
            EventKind::Ir => owned("Instructions"),
            EventKind::Dr => owned("Dr"),
            EventKind::Dw => owned("Dw"),
            EventKind::I1mr => owned("I1mr"),
            EventKind::D1mr => owned("D1mr"),
            EventKind::D1mw => owned("D1mw"),
            EventKind::ILmr => owned("ILmr"),
            EventKind::DLmr => owned("DLmr"),
            EventKind::DLmw => owned("DLmw"),
            EventKind::L1hits => owned("L1 Hits"),
            EventKind::LLhits => owned("L2 Hits"),
            EventKind::RamHits => owned("RAM Hits"),
            EventKind::TotalRW => owned("Total read+write"),
            EventKind::EstimatedCycles => owned("Estimated Cycles"),
            EventKind::SysCount => owned("SysCount"),
            EventKind::SysTime => owned("SysTime"),
            EventKind::SysCpuTime => owned("SysCpuTime"),
            EventKind::Ge => owned("Ge"),
            EventKind::Bc => owned("Bc"),
            EventKind::Bcm => owned("Bcm"),
            EventKind::Bi => owned("Bi"),
            EventKind::Bim => owned("Bim"),
            EventKind::ILdmr => owned("ILdmr"),
            EventKind::DLdmr => owned("DLdmr"),
            EventKind::DLdmw => owned("DLdmw"),
            EventKind::AcCost1 => owned("AcCost1"),
            EventKind::AcCost2 => owned("AcCost2"),
            EventKind::SpLoss1 => owned("SpLoss1"),
            EventKind::SpLoss2 => owned("SpLoss2"),
        }
    }

    /// All `EventKind`s in declaration order
    pub open spec fn spec_all() -> Seq<EventKind> {
        seq![EventKind::Ir, EventKind::Dr, EventKind::Dw, EventKind::I1mr, EventKind::D1mr, EventKind::D1mw, EventKind::ILmr, EventKind::DLmr, EventKind::DLmw, EventKind::L1hits, EventKind::LLhits, EventKind::RamHits, EventKind::TotalRW, EventKind::EstimatedCycles, EventKind::SysCount, EventKind::SysTime, EventKind::SysCpuTime, EventKind::Ge, EventKind::Bc, EventKind::Bcm, EventKind::Bi, EventKind::Bim, EventKind::ILdmr, EventKind::DLdmr, EventKind::DLdmw, EventKind::AcCost1, EventKind::AcCost2, EventKind::SpLoss1, EventKind::SpLoss2]
    }

    /// All `EventKind`s in declaration order
    pub fn all() -> (r: Vec<EventKind>)
        ensures
            r@ == Self::spec_all(),
    {
        let r = vec![EventKind::Ir, EventKind::Dr, EventKind::Dw, EventKind::I1mr, EventKind::D1mr, EventKind::D1mw, EventKind::ILmr, EventKind::DLmr, EventKind::DLmw, EventKind::L1hits, EventKind::LLhits, EventKind::RamHits, EventKind::TotalRW, EventKind::EstimatedCycles, EventKind::SysCount, EventKind::SysTime, EventKind::SysCpuTime, EventKind::Ge, EventKind::Bc, EventKind::Bcm, EventKind::Bi, EventKind::Bim, EventKind::ILdmr, EventKind::DLdmr, EventKind::DLdmw, EventKind::AcCost1, EventKind::AcCost2, EventKind::SpLoss1, EventKind::SpLoss2];
        r
    }

}
impl EventKind {
    /// True for the events derived from callgrind's native events.
    pub open spec fn spec_is_derived(self) -> bool {
        ||| self == EventKind::L1hits
        ||| self == EventKind::LLhits
        ||| self == EventKind::RamHits
        ||| self == EventKind::TotalRW
        ||| self == EventKind::EstimatedCycles
    }

    /// Return true if this `EventKind` is a derived event
    ///
    /// Derived events are calculated from Callgrind's native event types. Currently all derived
    /// events are: `L1hits`, `LLhits`, `RamHits`, `TotalRW` and `EstimatedCycles`.
    pub fn is_derived(&self) -> (r: bool)
        ensures
            r == self.spec_is_derived(),
    {
        matches!(
            self,
            EventKind::L1hits | EventKind::LLhits | EventKind::RamHits | EventKind::TotalRW
                | EventKind::EstimatedCycles
        )
    }

    /// The kind with the event name `value`, as it appears in the `events:` line of a callgrind
    /// output file
    pub fn from_name(value: &str) -> (r: EventKind)
        requires
            Self::spec_from_name(value@) is Some,
        ensures
            Self::spec_from_name(value@) == Some(r),
    {
        let v = to_chars(value);
        match Self::try_from_name(&v) {
            Some(k) => k,
            None => EventKind::Ir,
        }
    }

    /// The kind with the name `value` compared without regard to case
    ///
    /// The value is converted to lowercase first (`str::to_lowercase`) and then compared to the
    /// lowercase variant names.
    pub fn from_str_ignore_case(value: &str) -> (r: Option<EventKind>)
        ensures
            r == Self::spec_from_lowercase_name(crate::text::lowercase(value@)),
    {
        let lower = to_lowercase(value);
        let v = to_chars(lower.as_str());
        Self::from_lowercase_name(&v)
    }
}


/// The metric kinds collected by DHAT
#[derive(Debug, Clone, Copy, Hash, PartialEq, Eq, Structural)]
pub enum DhatMetricKind {
    /// Total bytes allocated over the entire execution
    TotalBytes,
    /// Total heap blocks allocated over the entire execution
    TotalBlocks,
    /// The bytes alive at t-gmax, the time when the heap size reached its global maximum
    AtTGmaxBytes,
    /// The blocks alive at t-gmax
    AtTGmaxBlocks,
    /// The amount of bytes at the end of the execution.
    ///
    /// This is the amount of bytes which were not explicitly freed.
    AtTEndBytes,
    /// The amount of blocks at the end of the execution.
    ///
    /// This is the amount of heap blocks which were not explicitly freed.
    AtTEndBlocks,
    /// The amount of bytes read during the entire execution
    ReadsBytes,
    /// The amount of bytes written during the entire execution
    WritesBytes,
    /// The total lifetimes of all heap blocks allocated
    TotalLifetimes,
    /// The maximum amount of bytes
    MaximumBytes,
    /// The maximum amount of heap blocks
    MaximumBlocks,
}

impl DhatMetricKind {
    /// The text shown for this metric kind
    pub open spec fn spec_display(self) -> Seq<char> {
        match self {
            DhatMetricKind::TotalBytes => "Total bytes"@,
            DhatMetricKind::TotalBlocks => "Total blocks"@,
            DhatMetricKind::AtTGmaxBytes => "At t-gmax bytes"@,
            DhatMetricKind::AtTGmaxBlocks => "At t-gmax blocks"@,
            DhatMetricKind::AtTEndBytes => "At t-end bytes"@,
            DhatMetricKind::AtTEndBlocks => "At t-end blocks"@,
            DhatMetricKind::ReadsBytes => "Reads bytes"@,
            DhatMetricKind::WritesBytes => "Writes bytes"@,
            DhatMetricKind::TotalLifetimes => "Total lifetimes"@,
            DhatMetricKind::MaximumBytes => "Maximum bytes"@,
            DhatMetricKind::MaximumBlocks => "Maximum blocks"@,
        }
    }

    /// The text shown for this metric kind
    pub fn to_string(&self) -> (r: String)
        ensures
            r@ == self.spec_display(),
    {
        match self {
            DhatMetricKind::TotalBytes => owned("Total bytes"),
            DhatMetricKind::TotalBlocks => owned("Total blocks"),
            DhatMetricKind::AtTGmaxBytes => owned("At t-gmax bytes"),
            DhatMetricKind::AtTGmaxBlocks => owned("At t-gmax blocks"),
            DhatMetricKind::AtTEndBytes => owned("At t-end bytes"),
            DhatMetricKind::AtTEndBlocks => owned("At t-end blocks"),
            DhatMetricKind::ReadsBytes => owned("Reads bytes"),
            DhatMetricKind::WritesBytes => owned("Writes bytes"),
            DhatMetricKind::TotalLifetimes => owned("Total lifetimes"),
            DhatMetricKind::MaximumBytes => owned("Maximum bytes"),
            DhatMetricKind::MaximumBlocks => owned("Maximum blocks"),
        }
    }
}

/// The error metrics from a tool which reports errors
///
/// The tools which report only errors are `helgrind`, `drd` and `memcheck`. The order in which the
/// variants are defined in this enum determines the order of the metrics in the benchmark terminal
/// output.
#[derive(Debug, Clone, Copy, Hash, PartialEq, Eq, Structural)]
pub enum ErrorMetricKind {
    /// The amount of detected unsuppressed errors
    Errors,
    /// The amount of detected unsuppressed error contexts
    Contexts,
    /// The amount of suppressed errors
    SuppressedErrors,
    /// The amount of suppressed error contexts
    SuppressedContexts,
}

impl ErrorMetricKind {
    /// The text shown for this metric kind
    pub open spec fn spec_display(self) -> Seq<char> {
        match self {
            ErrorMetricKind::Errors => "Errors"@,
            ErrorMetricKind::Contexts => "Contexts"@,
            ErrorMetricKind::SuppressedErrors => "Suppressed Errors"@,
            ErrorMetricKind::SuppressedContexts => "Suppressed Contexts"@,
        }
    }

    /// The text shown for this metric kind
    pub fn to_string(&self) -> (r: String)
        ensures
            r@ == self.spec_display(),
    {
        match self {
            ErrorMetricKind::Errors => owned("Errors"),
            ErrorMetricKind::Contexts => owned("Contexts"),
            ErrorMetricKind::SuppressedErrors => owned("Suppressed Errors"),
            ErrorMetricKind::SuppressedContexts => owned("Suppressed Contexts"),
        }
    }
}

/// The `Direction` in which the flamegraph should grow.
///
/// The default is `TopToBottom`.
#[derive(Debug, Clone, Copy, PartialEq, Eq, Structural)]
pub enum Direction {
    /// Grow from top to bottom with the highest event costs at the top
    TopToBottom,
    /// Grow from bottom to top with the highest event costs at the bottom
    BottomToTop,
}

impl Default for Direction {
    fn default() -> (r: Direction)
        ensures
            r == Direction::TopToBottom,
    {
        Direction::TopToBottom
    }
}

/// The `EntryPoint` of a library benchmark
#[derive(Debug, Clone, PartialEq)]
pub enum EntryPoint {
    /// Disable the entry point and default toggle entirely
    Disabled,
    /// The default entry point is the benchmark function
    Default,
    /// A custom entry point. The argument allows the same glob patterns as the
    /// `--toggle-collect` argument of callgrind.
    Custom(String),
}

impl Default for EntryPoint {
    fn default() -> (r: EntryPoint)
        ensures
            r is Default,
    {
        EntryPoint::Default
    }
}

impl EntryPoint {
    /// A custom entry point
    pub fn from(value: &str) -> (r: EntryPoint)
        ensures
            r matches EntryPoint::Custom(s) && s@ == value@,
    {
        EntryPoint::Custom(owned(value))
    }
}

/// The exit code a command is expected to end with
#[derive(Debug, Clone, Copy, PartialEq, Eq, Structural)]
pub enum ExitWith {
    Success,
    Failure,
    Code(i32),
}

/// The fixtures of a sandbox
#[derive(Debug, Clone)]
pub struct Fixtures {
    pub path: String,
    pub follow_symlinks: bool,
}

/// The kind of `Flamegraph` which is going to be constructed
#[derive(Debug, Clone, Copy, PartialEq, Eq, Structural)]
pub enum FlamegraphKind {
    /// The regular flamegraph for the new callgrind run
    Regular,
    /// A differential flamegraph showing the differences between the new and old callgrind run
    Differential,
    /// All flamegraph kinds that can be constructed (`Regular` and `Differential`). This
    /// is the default.
    All,
    /// Do not produce any flamegraphs
    Disabled,
}

/// Configure the `Stream` which should be used as pipe in [`Stdin::Setup`]
///
/// The default is [`Pipe::Stdout`]
#[derive(Debug, Clone, Copy, PartialEq, Eq, Structural)]
pub enum Pipe {
    /// The `Stdout` default `Stream`
    Stdout,
    /// The `Stderr` error `Stream`
    Stderr,
}

impl Default for Pipe {
    fn default() -> (r: Pipe)
        ensures
            r == Pipe::Stdout,
    {
        Pipe::Stdout
    }
}

/// Configure the `Stdio` of `Stdin`, `Stdout` and `Stderr`
///
/// Describes what to do with a standard I/O stream of a command.
#[derive(Debug, Clone, PartialEq, Eq)]
pub enum Stdio {
    /// The command's `Stream` inherits from the benchmark runner.
    Inherit,
    /// This stream will be ignored. This is the equivalent of attaching the stream to `/dev/null`
    Null,
    /// Redirect the content of a file into this `Stream`.
    File(String),
    /// A new pipe should be arranged to connect the benchmark runner and the command
    Pipe,
}

impl Default for Stdio {
    fn default() -> (r: Stdio)
        ensures
            r is Inherit,
    {
        Stdio::Inherit
    }
}

impl Stdio {
    /// Whether the stream is not inherited from the runner
    pub fn is_pipe(&self) -> (r: bool)
        ensures
            r == !(self is Inherit),
    {
        match self {
            Stdio::Inherit => false,
            Stdio::Null | Stdio::File(_) | Stdio::Pipe => true,
        }
    }

    /// Redirect the stream to or from the file at `path`
    pub fn from_path(path: &str) -> (r: Stdio)
        ensures
            r matches Stdio::File(p) && p@ == path@,
    {
        Stdio::File(owned(path))
    }
}

/// This is a special `Stdio` for the stdin of a command
///
/// Contains all the standard [`Stdio`] options and the [`Stdin::Setup`] option
#[derive(Debug, Clone, PartialEq, Eq)]
pub enum Stdin {
    /// Pipes the stream specified with [`Pipe`] of the `setup` function into the `Stdin` of the
    /// command. In this case the `setup` and command are executed in parallel.
    Setup(Pipe),
    /// See [`Stdio::Inherit`]
    Inherit,
    /// See [`Stdio::Null`]
    Null,
    /// See [`Stdio::File`]
    File(String),
    /// See [`Stdio::Pipe`]
    Pipe,
}

impl Default for Stdin {
    fn default() -> (r: Stdin)
        ensures
            r is Inherit,
    {
        Stdin::Inherit
    }
}

impl Stdin {
    /// The `Stdin` of a `Stdio`: the same option
    pub fn from(value: Stdio) -> (r: Stdin)
        ensures
            match value {
                Stdio::Inherit => r is Inherit,
                Stdio::Null => r is Null,
                Stdio::File(f) => r matches Stdin::File(g) && g == f,
                Stdio::Pipe => r is Pipe,
            },
    {
        match value {
            Stdio::Inherit => Stdin::Inherit,
            Stdio::Null => Stdin::Null,
            Stdio::File(file) => Stdin::File(file),
            Stdio::Pipe => Stdin::Pipe,
        }
    }

    /// Read the stream from the file at `path`
    pub fn from_path(path: &str) -> (r: Stdin)
        ensures
            r matches Stdin::File(p) && p@ == path@,
    {
        Stdin::File(owned(path))
    }
}

/// A standard stream of a command
#[derive(Debug, Clone, Copy, PartialEq, Eq, Structural)]
pub enum Stream {
    Stdin,
    Stdout,
    Stderr,
}

impl Stream {
    /// The name of the stream in lowercase: `stdin`, `stdout` or `stderr`
    pub fn to_string(&self) -> (r: String)
        ensures
            r@ == match self {
                Stream::Stdin => "stdin"@,
                Stream::Stdout => "stdout"@,
                Stream::Stderr => "stderr"@,
            },
    {
        match self {
            Stream::Stdin => owned("stdin"),
            Stream::Stdout => owned("stdout"),
            Stream::Stderr => owned("stderr"),
        }
    }
}

/// Where the input of a command comes from
#[derive(Debug, Clone, PartialEq, Eq)]
pub enum StdinSource {
    /// The stdout of the running `setup`
    SetupStdout,
    /// The stderr of the running `setup`
    SetupStderr,
    /// A stream as [`Stdio`] describes it
    Stdio(Stdio),
}

impl Stdin {
    /// Where the input of the command comes from: the pipe of the running `setup` where there is
    /// one (`has_setup_child`), else as the equivalent [`Stdio`] says; without a running
    /// `setup`, a setup pipe is a new pipe.
    pub fn source(&self, has_setup_child: bool) -> (r: StdinSource)
        ensures
            r == match (*self, has_setup_child) {
                (Stdin::Setup(Pipe::Stdout), true) => StdinSource::SetupStdout,
                (Stdin::Setup(Pipe::Stderr), true) => StdinSource::SetupStderr,
                (Stdin::Setup(_), false) | (Stdin::Pipe, _) => StdinSource::Stdio(Stdio::Pipe),
                (Stdin::Inherit, _) => StdinSource::Stdio(Stdio::Inherit),
                (Stdin::Null, _) => StdinSource::Stdio(Stdio::Null),
                (Stdin::File(p), _) => StdinSource::Stdio(Stdio::File(p)),
            },
    {
        match (self, has_setup_child) {
            (Stdin::Setup(Pipe::Stdout), true) => StdinSource::SetupStdout,
            (Stdin::Setup(Pipe::Stderr), true) => StdinSource::SetupStderr,
            (Stdin::Setup(_), false) | (Stdin::Pipe, _) => StdinSource::Stdio(Stdio::Pipe),
            (Stdin::Inherit, _) => StdinSource::Stdio(Stdio::Inherit),
            (Stdin::Null, _) => StdinSource::Stdio(Stdio::Null),
            (Stdin::File(p), _) => StdinSource::Stdio(Stdio::File(p.clone())),
        }
    }
}

/// The valgrind tools which can be run in addition to callgrind
#[derive(Debug, Clone, Copy, PartialEq, Eq, Hash, Structural)]
pub enum ValgrindTool {
    /// Memcheck: a memory error detector
    Memcheck,
    /// Helgrind: a thread error detector
    Helgrind,
    /// DRD: a thread error detector
    DRD,
    /// Massif: a heap profiler
    Massif,
    /// DHAT: a dynamic heap analysis tool
    DHAT,
    /// BBV: an experimental basic block vector generation tool
    BBV,
    /// Cachegrind: a high-precision tracing profiler
    Cachegrind,
}

/// The arguments of a tool as they are handed to valgrind
#[derive(Debug, Clone, PartialEq, Eq)]
pub struct RawArgs(pub Vec<String>);

/// An argument with a leading `--` unless it starts with `-` already.
pub open spec fn with_flag(s: Seq<char>) -> Seq<char> {
    if s.len() > 0 && s[0] == '-' {
        s
    } else {
        "--"@ + s
    }
}

/// The non-empty arguments of `args`, each with a leading `--` unless it starts with `-`.
pub open spec fn flagged_args(args: Seq<Seq<char>>) -> Seq<Seq<char>>
    decreases args.len(),
{
    if args.len() == 0 {
        Seq::empty()
    } else {
        let init = flagged_args(args.drop_last());
        if args.last().len() == 0 {
            init
        } else {
            init.push(with_flag(args.last()))
        }
    }
}

/// The command line arguments without a last `--bench`.
pub open spec fn without_bench_flag(args: Seq<Seq<char>>) -> Seq<Seq<char>> {
    if args.len() > 0 && args.last() == "--bench"@ {
        args.drop_last()
    } else {
        args
    }
}

/// The view of a list of strings
pub open spec fn string_seq(v: Seq<String>) -> Seq<Seq<char>> {
    v.map_values(|s: String| s@)
}

impl RawArgs {
    /// The arguments as text
    pub open spec fn args(self) -> Seq<Seq<char>> {
        string_seq(self.0@)
    }

    /// Create new arguments
    pub fn new(args: Vec<String>) -> (r: RawArgs)
        ensures
            r.0 == args,
    {
        RawArgs(args)
    }

    /// Append the non-empty arguments of `args`; an argument that does not start with `-` gets a
    /// leading `--`.
    pub fn extend_ignore_flag(&mut self, args: &Vec<String>)
        ensures
            final(self).args() == old(self).args() + flagged_args(string_seq(args@)),
    {
        let ghost a = string_seq(args@);
        let ghost start = self.args();
        let mut i: usize = 0;
        assert(a.take(0) =~= Seq::<Seq<char>>::empty());
        assert(start + flagged_args(a.take(0)) =~= start);
        while i < args.len()
            invariant
                0 <= i <= args.len(),
                a == string_seq(args@),
                self.args() == start + flagged_args(a.take(i as int)),
            decreases args.len() - i,
        {
            let s = to_chars(args[i].as_str());
            let ghost before = self.args();
            assert(a.take(i + 1).drop_last() =~= a.take(i as int));
            assert(a.take(i + 1).last() == s@);
            if s.len() > 0 {
                let flagged = if s[0] == '-' {
                    from_chars(&s)
                } else {
                    let mut f = to_chars("--");
                    append_chars(&mut f, &s);
                    from_chars(&f)
                };
                self.0.push(flagged);
                assert(self.args() =~= before.push(with_flag(s@)));
            }
            i += 1;
        }
        assert(a.take(args.len() as int) =~= a);
    }

    /// The arguments from the command line as `cargo bench` hands them over: all of them but a
    /// last `--bench`
    pub fn from_command_line_args(args: Vec<String>) -> (r: RawArgs)
        ensures
            r.args() == without_bench_flag(string_seq(args@)),
    {
        let mut args = args;
        let n = args.len();
        if n > 0 {
            let last = to_chars(args[n - 1].as_str());
            if eq_str(&last, "--bench") {
                let ghost before = args@;
                args.pop();
                assert(string_seq(args@) =~= string_seq(before).drop_last());
            }
        }
        RawArgs(args)
    }

    /// Return true if there are no arguments
    pub fn is_empty(&self) -> (r: bool)
        ensures
            r == (self.0@.len() == 0),
    {
        self.0.len() == 0
    }
}

impl Default for RawArgs {
    fn default() -> (r: RawArgs)
        ensures
            r.0@.len() == 0,
    {
        RawArgs(Vec::new())
    }
}

/// A tool to run in addition to callgrind, with its configuration
#[derive(Debug, Clone, PartialEq, Eq)]
pub struct Tool {
    pub kind: ValgrindTool,
    pub enable: Option<bool>,
    pub raw_args: RawArgs,
    pub show_log: Option<bool>,
}

/// The tools to run in addition to callgrind
#[derive(Debug, Clone, PartialEq, Eq)]
pub struct Tools(pub Vec<Tool>);

/// The view of a tool: its kind, whether it is enabled, its arguments and whether its log is
/// shown.
pub type ToolView = (ValgrindTool, Option<bool>, Seq<Seq<char>>, Option<bool>);

impl Tool {
    /// The view of this tool
    pub open spec fn view(self) -> ToolView {
        (self.kind, self.enable, self.raw_args.args(), self.show_log)
    }

    /// A copy of this tool
    pub fn duplicate(&self) -> (r: Tool)
        ensures
            r.view() == self.view(),
    {
        Tool {
            kind: self.kind,
            enable: self.enable,
            raw_args: self.raw_args.duplicate(),
            show_log: self.show_log,
        }
    }
}

impl RawArgs {
    /// A copy of these arguments
    pub fn duplicate(&self) -> (r: RawArgs)
        ensures
            r.args() == self.args(),
    {
        let mut v: Vec<String> = Vec::new();
        let mut i: usize = 0;
        while i < self.0.len()
            invariant
                0 <= i <= self.0.len(),
                string_seq(v@) == string_seq(self.0@).take(i as int),
            decreases self.0.len() - i,
        {
            let ghost before = v@;
            let x = owned(self.0[i].as_str());
            v.push(x);
            assert(string_seq(v@) =~= string_seq(before).push(x@));
            assert(string_seq(self.0@).take(i + 1) =~= string_seq(self.0@).take(i as int).push(
                self.0@[i as int]@,
            ));
            i += 1;
        }
        assert(string_seq(self.0@).take(self.0.len() as int) =~= string_seq(self.0@));
        RawArgs(v)
    }
}

/// The views of the tools.
pub open spec fn tools_view(tools: Seq<Tool>) -> Seq<ToolView> {
    tools.map_values(|t: Tool| t.view())
}

/// The position of the first tool of kind `kind`.
pub open spec fn tool_position(tools: Seq<ToolView>, kind: ValgrindTool) -> Option<int> {
    if exists|i: int| 0 <= i < tools.len() && tools[i].0 == kind {
        Some(
            choose|i: int|
                0 <= i < tools.len() && tools[i].0 == kind && forall|j: int|
                    0 <= j < i ==> tools[j].0 != kind,
        )
    } else {
        None
    }
}

/// The tools after an update with `tool`: the first tool of the same kind is removed and `tool`
/// is appended.
pub open spec fn tools_update(tools: Seq<ToolView>, tool: ToolView) -> Seq<ToolView> {
    match tool_position(tools, tool.0) {
        Some(i) => tools.remove(i).push(tool),
        None => tools.push(tool),
    }
}

/// The tools after updates with each of `others` in order.
pub open spec fn tools_update_all(tools: Seq<ToolView>, others: Seq<ToolView>) -> Seq<ToolView>
    decreases others.len(),
{
    if others.len() == 0 {
        tools
    } else {
        tools_update(tools_update_all(tools, others.drop_last()), others.last())
    }
}

/// The first tool of a kind is the one `tool_position` picks.
proof fn lemma_tool_position(tools: Seq<ToolView>, kind: ValgrindTool, i: int)
    requires
        0 <= i < tools.len(),
        tools[i].0 == kind,
        forall|j: int| 0 <= j < i ==> tools[j].0 != kind,
    ensures
        tool_position(tools, kind) == Some(i),
{
    let c = choose|c: int|
        0 <= c < tools.len() && tools[c].0 == kind && forall|j: int|
            0 <= j < c ==> tools[j].0 != kind;
    assert(0 <= c < tools.len() && tools[c].0 == kind && forall|j: int|
        0 <= j < c ==> tools[j].0 != kind);
    if c < i {
        assert(tools[c].0 != kind);
    }
    if i < c {
        assert(tools[i].0 != kind);
    }
}

/// No two tools have the same kind.
pub open spec fn kinds_distinct(tools: Seq<ToolView>) -> bool {
    forall|i: int, j: int|
        0 <= i < tools.len() && 0 <= j < tools.len() && i != j ==> #[trigger] tools[i].0
            != #[trigger] tools[j].0
}

/// The tool of kind `kind`: the first one of that kind.
pub open spec fn tool_of(tools: Seq<ToolView>, kind: ValgrindTool) -> Option<ToolView> {
    match tool_position(tools, kind) {
        Some(i) => Some(tools[i]),
        None => None,
    }
}

/// The last tool of kind `kind` in `others`.
pub open spec fn last_of(others: Seq<ToolView>, kind: ValgrindTool) -> Option<ToolView>
    decreases others.len(),
{
    if others.len() == 0 {
        None
    } else if others.last().0 == kind {
        Some(others.last())
    } else {
        last_of(others.drop_last(), kind)
    }
}

/// In tools of distinct kinds, the tool at `i` is the tool of its kind.
proof fn lemma_tool_of_distinct(tools: Seq<ToolView>, i: int)
    requires
        kinds_distinct(tools),
        0 <= i < tools.len(),
    ensures
        tool_of(tools, tools[i].0) == Some(tools[i]),
{
    assert forall|j: int| 0 <= j < i implies tools[j].0 != tools[i].0 by {
        assert(tools[j].0 != tools[i].0);
    }
    lemma_tool_position(tools, tools[i].0, i);
}

/// One update keeps the kinds distinct; the updated kind has the new tool, the others keep
/// theirs.
proof fn lemma_tools_update_step(tools: Seq<ToolView>, x: ToolView)
    requires
        kinds_distinct(tools),
    ensures
        kinds_distinct(tools_update(tools, x)),
        forall|k: ValgrindTool|
            #[trigger] tool_of(tools_update(tools, x), k) == if k == x.0 {
                Some(x)
            } else {
                tool_of(tools, k)
            },
{
    let u = tools_update(tools, x);
    let n = u.len() - 1;
    match tool_position(tools, x.0) {
        Some(i) => {
            let c = choose|c: int|
                0 <= c < tools.len() && tools[c].0 == x.0 && forall|j: int|
                    0 <= j < c ==> tools[j].0 != x.0;
            assert(exists|c: int| 0 <= c < tools.len() && tools[c].0 == x.0);
            assert(0 <= c < tools.len() && tools[c].0 == x.0);
            assert(i == c);
            let r = tools.remove(i);
            assert(u == r.push(x));
            assert forall|a: int| 0 <= a < r.len() implies r[a] == tools[if a < i { a } else { a + 1 }] by {}
            assert forall|a: int| 0 <= a < r.len() implies #[trigger] r[a].0 != x.0 by {
                let o = if a < i { a } else { a + 1 };
                assert(r[a] == tools[o]);
                assert(tools[o].0 != tools[i].0);
            }
            assert forall|a: int, b: int| 0 <= a < u.len() && 0 <= b < u.len() && a != b implies #[trigger] u[a].0
                != #[trigger] u[b].0 by {
                if a == n {
                    assert(u[b] == r[b]);
                    assert(r[b].0 != x.0);
                } else if b == n {
                    assert(u[a] == r[a]);
                    assert(r[a].0 != x.0);
                } else {
                    let oa = if a < i { a } else { a + 1 };
                    let ob = if b < i { b } else { b + 1 };
                    assert(u[a] == tools[oa] && u[b] == tools[ob]);
                    assert(tools[oa].0 != tools[ob].0);
                }
            }
            assert forall|k: ValgrindTool| #[trigger] tool_of(u, k) == if k == x.0 {
                Some(x)
            } else {
                tool_of(tools, k)
            } by {
                if k == x.0 {
                    lemma_tool_of_distinct(u, n);
                } else if exists|j: int| 0 <= j < tools.len() && tools[j].0 == k {
                    let j = choose|j: int| 0 <= j < tools.len() && tools[j].0 == k;
                    lemma_tool_of_distinct(tools, j);
                    assert(j != i);
                    let jj = if j < i { j } else { j - 1 };
                    assert(u[jj] == r[jj]);
                    assert(r[jj] == tools[j]);
                    lemma_tool_of_distinct(u, jj);
                } else {
                    assert forall|a: int| 0 <= a < u.len() implies u[a].0 != k by {
                        if a < n {
                            let o = if a < i { a } else { a + 1 };
                            assert(u[a] == tools[o]);
                        }
                    }
                }
            }
        },
        None => {
            assert(!exists|c: int| 0 <= c < tools.len() && tools[c].0 == x.0);
            assert(u == tools.push(x));
            assert forall|a: int, b: int| 0 <= a < u.len() && 0 <= b < u.len() && a != b implies #[trigger] u[a].0
                != #[trigger] u[b].0 by {
                if a == n {
                    assert(u[b] == tools[b]);
                } else if b == n {
                    assert(u[a] == tools[a]);
                } else {
                    assert(u[a] == tools[a] && u[b] == tools[b]);
                }
            }
            assert forall|k: ValgrindTool| #[trigger] tool_of(u, k) == if k == x.0 {
                Some(x)
            } else {
                tool_of(tools, k)
            } by {
                if k == x.0 {
                    lemma_tool_of_distinct(u, n);
                } else if exists|j: int| 0 <= j < tools.len() && tools[j].0 == k {
                    let j = choose|j: int| 0 <= j < tools.len() && tools[j].0 == k;
                    lemma_tool_of_distinct(tools, j);
                    assert(u[j] == tools[j]);
                    lemma_tool_of_distinct(u, j);
                } else {
                    assert forall|a: int| 0 <= a < u.len() implies u[a].0 != k by {
                        if a < n {
                            assert(u[a] == tools[a]);
                        }
                    }
                }
            }
        },
    }
}

/// Updating tools of distinct kinds with others, in order, keeps the kinds distinct, and the
/// last of the others of a kind wins: each kind has the last tool of that kind among the
/// others, or, where the others have none, the tool it had before.
pub proof fn lemma_update_all_last_wins(tools: Seq<ToolView>, others: Seq<ToolView>)
    requires
        kinds_distinct(tools),
    ensures
        kinds_distinct(tools_update_all(tools, others)),
        forall|k: ValgrindTool|
            #[trigger] tool_of(tools_update_all(tools, others), k) == match last_of(others, k) {
                Some(t) => Some(t),
                None => tool_of(tools, k),
            },
    decreases others.len(),
{
    if others.len() > 0 {
        lemma_update_all_last_wins(tools, others.drop_last());
        lemma_tools_update_step(tools_update_all(tools, others.drop_last()), others.last());
    }
}

impl Tools {
    /// Return true if `Tools` is empty
    pub fn is_empty(&self) -> (r: bool)
        ensures
            r == (self.0@.len() == 0),
    {
        self.0.len() == 0
    }

    /// Update `Tools`
    ///
    /// Adds the [`Tool`] to `Tools`. If a [`Tool`] of the same kind is already present, it is
    /// removed.
    pub fn update(&mut self, tool: Tool)
        ensures
            tools_view(final(self).0@) == tools_update(tools_view(old(self).0@), tool.view()),
    {
        let ghost tv = tools_view(self.0@);
        let mut i: usize = 0;
        while i < self.0.len() && self.0[i].kind != tool.kind
            invariant
                0 <= i <= self.0.len(),
                tv == tools_view(self.0@),
                forall|j: int| 0 <= j < i ==> tv[j].0 != tool.kind,
            decreases self.0.len() - i,
        {
            i += 1;
        }
        if i < self.0.len() {
            proof {
                lemma_tool_position(tv, tool.kind, i as int);
            }
            self.0.remove(i);
            self.0.push(tool);
            assert(tools_view(self.0@) =~= tv.remove(i as int).push(tool.view()));
        } else {
            assert(!exists|k: int| 0 <= k < tv.len() && tv[k].0 == tool.kind);
            self.0.push(tool);
            assert(tools_view(self.0@) =~= tv.push(tool.view()));
        }
    }

    /// Update `Tools` with all [`Tool`]s of `tools`, in order
    pub fn update_all(&mut self, tools: Vec<Tool>)
        ensures
            tools_view(final(self).0@) == tools_update_all(tools_view(old(self).0@), tools_view(tools@)),
    {
        let ghost start = tools_view(self.0@);
        let ghost all = tools_view(tools@);
        let mut tools = tools;
        let ghost mut done: int = 0;
        assert(all.take(0) =~= Seq::<ToolView>::empty());
        assert(tools_view(tools@) =~= all.skip(0));
        while tools.len() > 0
            invariant
                0 <= done <= all.len(),
                tools@.len() == all.len() - done,
                tools_view(tools@) == all.skip(done),
                tools_view(self.0@) == tools_update_all(start, all.take(done)),
            decreases tools.len(),
        {
            let ghost before = tools@;
            let t = tools.remove(0);
            assert(tools_view(before)[0] == before[0].view());
            assert(all.skip(done)[0] == all[done]);
            assert(t.view() == all[done]);
            self.update(t);
            assert(done < all.len());
            assert(all.take(done + 1).drop_last() =~= all.take(done));
            assert(all.take(done + 1).last() == all[done]);
            proof {
                done = done + 1;
            }
            assert(tools_view(tools@) =~= all.skip(done)) by {
                assert(tools@ =~= before.remove(0));
                assert forall|k: int| 0 <= k < tools@.len() implies tools_view(tools@)[k] == all.skip(done)[k] by {
                    assert(tools@[k] == before[k + 1]);
                    assert(tools_view(before)[k + 1] == before[k + 1].view());
                    assert(all.skip(done - 1)[k + 1] == all.skip(done)[k]);
                }
            }
        }
        assert(all.take(all.len() as int) =~= all);
    }

    /// Update `Tools` with the tools of another `Tools`, in order
    pub fn update_from_other(&mut self, tools: &Tools)
        ensures
            tools_view(final(self).0@) == tools_update_all(tools_view(old(self).0@), tools_view(tools.0@)),
    {
        let ghost start = tools_view(self.0@);
        let ghost all = tools_view(tools.0@);
        let mut i: usize = 0;
        assert(all.take(0) =~= Seq::<ToolView>::empty());
        while i < tools.0.len()
            invariant
                0 <= i <= tools.0.len(),
                all == tools_view(tools.0@),
                tools_view(self.0@) == tools_update_all(start, all.take(i as int)),
            decreases tools.0.len() - i,
        {
            let t = tools.0[i].duplicate();
            self.update(t);
            assert(all.take(i + 1).drop_last() =~= all.take(i as int));
            i += 1;
        }
        assert(all.take(tools.0.len() as int) =~= all);
    }
}

/// The value of `other` if present, `first` otherwise.
pub open spec fn update_option_spec<T>(first: Option<T>, other: Option<T>) -> Option<T> {
    match other {
        Some(o) => Some(o),
        None => first,
    }
}

/// The value of `other` if it is present, else the value of `first`, both cloned
pub fn update_option<T: Clone>(first: &Option<T>, other: &Option<T>) -> (r: Option<T>)
    ensures
        match other {
            Some(o) => r matches Some(x) && cloned(*o, x),
            None => match first {
                Some(f) => r matches Some(x) && cloned(*f, x),
                None => r is None,
            },
        },
{
    match other {
        Some(o) => Some(o.clone()),
        None => match first {
            Some(f) => Some(f.clone()),
            None => None,
        },
    }
}

/// A collection of groups of [`EventKind`]s
///
/// `Callgrind` supports a large amount of metrics and their collection can be enabled with various
/// command-line flags. [`CallgrindMetrics`] groups these metrics to make it less cumbersome to
/// specify multiple [`EventKind`]s at once if necessary.
#[derive(Debug, Clone, Copy, PartialEq, Eq, Structural)]
pub enum CallgrindMetrics {
    /// All event kinds except the cache misses and [`EventKind::Dr`], [`EventKind::Dw`]:
    /// `Ir`, the cache hits, `TotalRW`, `EstimatedCycles`, the system calls, `Ge`, the branch
    /// simulation, the write back behaviour and the cache use, in this order.
    Default,
    /// The cache misses produced by `--cache-sim=yes`
    CacheMisses,
    /// The derived cache hits
    CacheHits,
    /// All event kinds of the cache simulation with `--cache-sim=yes`
    CacheSim,
    /// The cache use of `--cacheuse=yes`
    CacheUse,
    /// The system calls of `--collect-systime=yes`
    SystemCalls,
    /// The branch simulation of `--branch-sim=yes`
    BranchSim,
    /// The write back behaviour of `--simulate-wb=yes`
    WriteBackBehaviour,
    /// All event kinds
    All,
    /// No event kind at all
    NoMetrics,
    /// A single event kind
    SingleEvent(EventKind),
}

impl Default for CallgrindMetrics {
    fn default() -> (r: CallgrindMetrics)
        ensures
            r == CallgrindMetrics::Default,
    {
        CallgrindMetrics::Default
    }
}

/// The event kinds of a group of metrics, in order.
pub open spec fn metric_group(m: CallgrindMetrics) -> Seq<EventKind> {
    match m {
        CallgrindMetrics::Default => seq![
            EventKind::Ir,
            EventKind::L1hits,
            EventKind::LLhits,
            EventKind::RamHits,
            EventKind::TotalRW,
            EventKind::EstimatedCycles,
            EventKind::SysCount,
            EventKind::SysTime,
            EventKind::SysCpuTime,
            EventKind::Ge,
            EventKind::Bc,
            EventKind::Bcm,
            EventKind::Bi,
            EventKind::Bim,
            EventKind::ILdmr,
            EventKind::DLdmr,
            EventKind::DLdmw,
            EventKind::AcCost1,
            EventKind::AcCost2,
            EventKind::SpLoss1,
            EventKind::SpLoss2,
        ],
        CallgrindMetrics::CacheMisses => seq![
            EventKind::I1mr,
            EventKind::D1mr,
            EventKind::D1mw,
            EventKind::ILmr,
            EventKind::DLmr,
            EventKind::DLmw,
        ],
        CallgrindMetrics::CacheHits => seq![EventKind::L1hits, EventKind::LLhits, EventKind::RamHits],
        CallgrindMetrics::CacheSim => seq![
            EventKind::Dr,
            EventKind::Dw,
            EventKind::I1mr,
            EventKind::D1mr,
            EventKind::D1mw,
            EventKind::ILmr,
            EventKind::DLmr,
            EventKind::DLmw,
            EventKind::L1hits,
            EventKind::LLhits,
            EventKind::RamHits,
            EventKind::TotalRW,
            EventKind::EstimatedCycles,
        ],
        CallgrindMetrics::CacheUse => seq![
            EventKind::AcCost1,
            EventKind::AcCost2,
            EventKind::SpLoss1,
            EventKind::SpLoss2,
        ],
        CallgrindMetrics::SystemCalls => seq![
            EventKind::SysCount,
            EventKind::SysTime,
            EventKind::SysCpuTime,
        ],
        CallgrindMetrics::BranchSim => seq![
            EventKind::Bc,
            EventKind::Bcm,
            EventKind::Bi,
            EventKind::Bim,
        ],
        CallgrindMetrics::WriteBackBehaviour => seq![
            EventKind::ILdmr,
            EventKind::DLdmr,
            EventKind::DLdmw,
        ],
        CallgrindMetrics::All => EventKind::spec_all(),
        CallgrindMetrics::NoMetrics => Seq::empty(),
        CallgrindMetrics::SingleEvent(e) => seq![e],
    }
}

/// The items of an insertion-ordered set after inserting `items` one after the other.
pub open spec fn set_extend(s: Seq<u8>, items: Seq<u8>) -> Seq<u8>
    decreases items.len(),
{
    if items.len() == 0 {
        s
    } else {
        set_insert_spec(set_extend(s, items.drop_last()), items.last())
    }
}

/// The indices of event kinds.
pub open spec fn kind_indices(kinds: Seq<EventKind>) -> Seq<u8> {
    kinds.map_values(|k: EventKind| k.spec_index())
}

impl CallgrindMetrics {
    /// A group with a single event kind
    pub fn from(value: EventKind) -> (r: CallgrindMetrics)
        ensures
            r == CallgrindMetrics::SingleEvent(value),
    {
        CallgrindMetrics::SingleEvent(value)
    }

    /// The event kinds of this group, in order
    pub fn event_kind_list(&self) -> (r: Vec<EventKind>)
        ensures
            r@ == metric_group(*self),
    {
        match self {
            CallgrindMetrics::Default => vec![
                EventKind::Ir,
                EventKind::L1hits,
                EventKind::LLhits,
                EventKind::RamHits,
                EventKind::TotalRW,
                EventKind::EstimatedCycles,
                EventKind::SysCount,
                EventKind::SysTime,
                EventKind::SysCpuTime,
                EventKind::Ge,
                EventKind::Bc,
                EventKind::Bcm,
                EventKind::Bi,
                EventKind::Bim,
                EventKind::ILdmr,
                EventKind::DLdmr,
                EventKind::DLdmw,
                EventKind::AcCost1,
                EventKind::AcCost2,
                EventKind::SpLoss1,
                EventKind::SpLoss2,
            ],
            CallgrindMetrics::CacheMisses => vec![
                EventKind::I1mr,
                EventKind::D1mr,
                EventKind::D1mw,
                EventKind::ILmr,
                EventKind::DLmr,
                EventKind::DLmw,
            ],
            CallgrindMetrics::CacheHits => vec![EventKind::L1hits, EventKind::LLhits, EventKind::RamHits],
            CallgrindMetrics::CacheSim => vec![
                EventKind::Dr,
                EventKind::Dw,
                EventKind::I1mr,
                EventKind::D1mr,
                EventKind::D1mw,
                EventKind::ILmr,
                EventKind::DLmr,
                EventKind::DLmw,
                EventKind::L1hits,
                EventKind::LLhits,
                EventKind::RamHits,
                EventKind::TotalRW,
                EventKind::EstimatedCycles,
            ],
            CallgrindMetrics::CacheUse => vec![
                EventKind::AcCost1,
                EventKind::AcCost2,
                EventKind::SpLoss1,
                EventKind::SpLoss2,
            ],
            CallgrindMetrics::SystemCalls => vec![
                EventKind::SysCount,
                EventKind::SysTime,
                EventKind::SysCpuTime,
            ],
            CallgrindMetrics::BranchSim => vec![
                EventKind::Bc,
                EventKind::Bcm,
                EventKind::Bi,
                EventKind::Bim,
            ],
            CallgrindMetrics::WriteBackBehaviour => vec![
                EventKind::ILdmr,
                EventKind::DLdmr,
                EventKind::DLdmw,
            ],
            CallgrindMetrics::All => EventKind::all(),
            CallgrindMetrics::NoMetrics => Vec::new(),
            CallgrindMetrics::SingleEvent(e) => vec![*e],
        }
    }

    /// The set of the event kinds of this group, by their index, in order
    pub fn to_event_kinds(&self) -> (r: IndexSet<u8>)
        ensures
            set_items(r) == set_extend(Seq::empty(), kind_indices(metric_group(*self))),
    {
        let kinds = self.event_kind_list();
        let ghost idx = kind_indices(kinds@);
        let mut set = set_new();
        let mut i: usize = 0;
        assert(idx.take(0) =~= Seq::<u8>::empty());
        while i < kinds.len()
            invariant
                0 <= i <= kinds.len(),
                idx == kind_indices(kinds@),
                set_items(set) == set_extend(Seq::empty(), idx.take(i as int)),
            decreases kinds.len() - i,
        {
            set_insert(&mut set, kinds[i].to_index());
            assert(idx.take(i + 1).drop_last() =~= idx.take(i as int));
            i += 1;
        }
        assert(idx.take(kinds.len() as int) =~= idx);
        set
    }
}

/// The event kinds of a set of event kind indices, in order
pub fn event_kinds_of(set: &IndexSet<u8>) -> (r: Vec<EventKind>)
    requires
        forall|i: int| 0 <= i < set_items(*set).len() ==> #[trigger] set_items(*set)[i] < 29,
    ensures
        r@.len() == set_items(*set).len(),
        forall|i: int| 0 <= i < r@.len() ==> #[trigger] r@[i].spec_index() == set_items(*set)[i],
{
    let n = set_len(set);
    let mut r: Vec<EventKind> = Vec::new();
    let mut i: usize = 0;
    while i < n
        invariant
            0 <= i <= n,
            n == set_items(*set).len(),
            r@.len() == i,
            forall|j: int| 0 <= j < set_items(*set).len() ==> #[trigger] set_items(*set)[j] < 29,
            forall|j: int| 0 <= j < i ==> #[trigger] r@[j].spec_index() == set_items(*set)[j],
        decreases n - i,
    {
        match set_get_index(set, i) {
            Some(x) => {
                match EventKind::from_index(x) {
                    Some(k) => {
                        r.push(k);
                    },
                    None => {
                        assert(false);
                    },
                }
            },
            None => {},
        }
        i += 1;
    }
    r
}

/// The configuration values for the output format
#[derive(Debug, Clone, PartialEq)]
pub struct OutputFormat {
    pub truncate_description: Option<Option<usize>>,
    pub show_intermediate: Option<bool>,
    pub show_grid: Option<bool>,
    pub callgrind_metrics: Option<Vec<CallgrindMetrics>>,
}

impl Default for OutputFormat {
    fn default() -> (r: OutputFormat)
        ensures
            r.truncate_description is None,
            r.show_intermediate is None,
            r.show_grid is None,
            r.callgrind_metrics is None,
    {
        OutputFormat {
            truncate_description: None,
            show_intermediate: None,
            show_grid: None,
            callgrind_metrics: None,
        }
    }
}


/// The name of an event kind names it again: reading the name that [`EventKind::to_name`]
/// gives back yields the same kind, for all kinds but the system call counters, whose names in
/// callgrind's output begin with a lowercase `sys`.
pub proof fn lemma_name_round_trip(k: EventKind)
    requires
        k != EventKind::SysCount,
        k != EventKind::SysTime,
        k != EventKind::SysCpuTime,
    ensures
        EventKind::spec_from_name(k.spec_name()) == Some(k),
{
    reveal_strlit("Ir");
    reveal_strlit("Dr");
    reveal_strlit("Dw");
    reveal_strlit("I1mr");
    reveal_strlit("D1mr");
    reveal_strlit("D1mw");
    reveal_strlit("ILmr");
    reveal_strlit("DLmr");
    reveal_strlit("DLmw");
    reveal_strlit("L1hits");
    reveal_strlit("LLhits");
    reveal_strlit("RamHits");
    reveal_strlit("TotalRW");
    reveal_strlit("EstimatedCycles");
    reveal_strlit("sysCount");
    reveal_strlit("sysTime");
    reveal_strlit("sysCpuTime");
    reveal_strlit("Ge");
    reveal_strlit("Bc");
    reveal_strlit("Bcm");
    reveal_strlit("Bi");
    reveal_strlit("Bim");
    reveal_strlit("ILdmr");
    reveal_strlit("DLdmr");
    reveal_strlit("DLdmw");
    reveal_strlit("AcCost1");
    reveal_strlit("AcCost2");
    reveal_strlit("SpLoss1");
    reveal_strlit("SpLoss2");
    assert("Ir"@ =~= seq!['I', 'r']);
    assert("Dr"@ =~= seq!['D', 'r']);
    assert("Dw"@ =~= seq!['D', 'w']);
    assert("I1mr"@ =~= seq!['I', '1', 'm', 'r']);
    assert("D1mr"@ =~= seq!['D', '1', 'm', 'r']);
    assert("D1mw"@ =~= seq!['D', '1', 'm', 'w']);
    assert("ILmr"@ =~= seq!['I', 'L', 'm', 'r']);
    assert("DLmr"@ =~= seq!['D', 'L', 'm', 'r']);
    assert("DLmw"@ =~= seq!['D', 'L', 'm', 'w']);
    assert("L1hits"@ =~= seq!['L', '1', 'h', 'i', 't', 's']);
    assert("LLhits"@ =~= seq!['L', 'L', 'h', 'i', 't', 's']);
    assert("RamHits"@ =~= seq!['R', 'a', 'm', 'H', 'i', 't', 's']);
    assert("TotalRW"@ =~= seq!['T', 'o', 't', 'a', 'l', 'R', 'W']);
    assert("EstimatedCycles"@ =~= seq!['E', 's', 't', 'i', 'm', 'a', 't', 'e', 'd', 'C', 'y', 'c', 'l', 'e', 's']);
    assert("sysCount"@ =~= seq!['s', 'y', 's', 'C', 'o', 'u', 'n', 't']);
    assert("sysTime"@ =~= seq!['s', 'y', 's', 'T', 'i', 'm', 'e']);
    assert("sysCpuTime"@ =~= seq!['s', 'y', 's', 'C', 'p', 'u', 'T', 'i', 'm', 'e']);
    assert("Ge"@ =~= seq!['G', 'e']);
    assert("Bc"@ =~= seq!['B', 'c']);
    assert("Bcm"@ =~= seq!['B', 'c', 'm']);
    assert("Bi"@ =~= seq!['B', 'i']);
    assert("Bim"@ =~= seq!['B', 'i', 'm']);
    assert("ILdmr"@ =~= seq!['I', 'L', 'd', 'm', 'r']);
    assert("DLdmr"@ =~= seq!['D', 'L', 'd', 'm', 'r']);
    assert("DLdmw"@ =~= seq!['D', 'L', 'd', 'm', 'w']);
    assert("AcCost1"@ =~= seq!['A', 'c', 'C', 'o', 's', 't', '1']);
    assert("AcCost2"@ =~= seq!['A', 'c', 'C', 'o', 's', 't', '2']);
    assert("SpLoss1"@ =~= seq!['S', 'p', 'L', 'o', 's', 's', '1']);
    assert("SpLoss2"@ =~= seq!['S', 'p', 'L', 'o', 's', 's', '2']);
}


/// The display name of an event kind holds no `/`, so it can stand in a file name.
pub proof fn lemma_display_has_no_slash(k: EventKind)
    ensures
        !k.spec_display().contains('/'),
{
    match k {
        EventKind::Ir => {
            reveal_strlit("Instructions");
            assert("Instructions"@ =~= seq!['I', 'n', 's', 't', 'r', 'u', 'c', 't', 'i', 'o', 'n', 's']);
        },
        EventKind::Dr => {
            reveal_strlit("Dr");
            assert("Dr"@ =~= seq!['D', 'r']);
        },
        EventKind::Dw => {
            reveal_strlit("Dw");
            assert("Dw"@ =~= seq!['D', 'w']);
        },
        EventKind::I1mr => {
            reveal_strlit("I1mr");
            assert("I1mr"@ =~= seq!['I', '1', 'm', 'r']);
        },
        EventKind::D1mr => {
            reveal_strlit("D1mr");
            assert("D1mr"@ =~= seq!['D', '1', 'm', 'r']);
        },
        EventKind::D1mw => {
            reveal_strlit("D1mw");
            assert("D1mw"@ =~= seq!['D', '1', 'm', 'w']);
        },
        EventKind::ILmr => {
            reveal_strlit("ILmr");
            assert("ILmr"@ =~= seq!['I', 'L', 'm', 'r']);
        },
        EventKind::DLmr => {
            reveal_strlit("DLmr");
            assert("DLmr"@ =~= seq!['D', 'L', 'm', 'r']);
        },
        EventKind::DLmw => {
            reveal_strlit("DLmw");
            assert("DLmw"@ =~= seq!['D', 'L', 'm', 'w']);
        },
        EventKind::L1hits => {
            reveal_strlit("L1 Hits");
            assert("L1 Hits"@ =~= seq!['L', '1', ' ', 'H', 'i', 't', 's']);
        },
        EventKind::LLhits => {
            reveal_strlit("L2 Hits");
            assert("L2 Hits"@ =~= seq!['L', '2', ' ', 'H', 'i', 't', 's']);
        },
        EventKind::RamHits => {
            reveal_strlit("RAM Hits");
            assert("RAM Hits"@ =~= seq!['R', 'A', 'M', ' ', 'H', 'i', 't', 's']);
        },
        EventKind::TotalRW => {
            reveal_strlit("Total read+write");
            assert("Total read+write"@ =~= seq!['T', 'o', 't', 'a', 'l', ' ', 'r', 'e', 'a', 'd', '+', 'w', 'r', 'i', 't', 'e']);
        },
        EventKind::EstimatedCycles => {
            reveal_strlit("Estimated Cycles");
            assert("Estimated Cycles"@ =~= seq!['E', 's', 't', 'i', 'm', 'a', 't', 'e', 'd', ' ', 'C', 'y', 'c', 'l', 'e', 's']);
        },
        EventKind::SysCount => {
            reveal_strlit("SysCount");
            assert("SysCount"@ =~= seq!['S', 'y', 's', 'C', 'o', 'u', 'n', 't']);
        },
        EventKind::SysTime => {
            reveal_strlit("SysTime");
            assert("SysTime"@ =~= seq!['S', 'y', 's', 'T', 'i', 'm', 'e']);
        },
        EventKind::SysCpuTime => {
            reveal_strlit("SysCpuTime");
            assert("SysCpuTime"@ =~= seq!['S', 'y', 's', 'C', 'p', 'u', 'T', 'i', 'm', 'e']);
        },
        EventKind::Ge => {
            reveal_strlit("Ge");
            assert("Ge"@ =~= seq!['G', 'e']);
        },
        EventKind::Bc => {
            reveal_strlit("Bc");
            assert("Bc"@ =~= seq!['B', 'c']);
        },
        EventKind::Bcm => {
            reveal_strlit("Bcm");
            assert("Bcm"@ =~= seq!['B', 'c', 'm']);
        },
        EventKind::Bi => {
            reveal_strlit("Bi");
            assert("Bi"@ =~= seq!['B', 'i']);
        },
        EventKind::Bim => {
            reveal_strlit("Bim");
            assert("Bim"@ =~= seq!['B', 'i', 'm']);
        },
        EventKind::ILdmr => {
            reveal_strlit("ILdmr");
            assert("ILdmr"@ =~= seq!['I', 'L', 'd', 'm', 'r']);
        },
        EventKind::DLdmr => {
            reveal_strlit("DLdmr");
            assert("DLdmr"@ =~= seq!['D', 'L', 'd', 'm', 'r']);
        },
        EventKind::DLdmw => {
            reveal_strlit("DLdmw");
            assert("DLdmw"@ =~= seq!['D', 'L', 'd', 'm', 'w']);
        },
        EventKind::AcCost1 => {
            reveal_strlit("AcCost1");
            assert("AcCost1"@ =~= seq!['A', 'c', 'C', 'o', 's', 't', '1']);
        },
        EventKind::AcCost2 => {
            reveal_strlit("AcCost2");
            assert("AcCost2"@ =~= seq!['A', 'c', 'C', 'o', 's', 't', '2']);
        },
        EventKind::SpLoss1 => {
            reveal_strlit("SpLoss1");
            assert("SpLoss1"@ =~= seq!['S', 'p', 'L', 'o', 's', 's', '1']);
        },
        EventKind::SpLoss2 => {
            reveal_strlit("SpLoss2");
            assert("SpLoss2"@ =~= seq!['S', 'p', 'L', 'o', 's', 's', '2']);
        },
    }
}

} // verus!
