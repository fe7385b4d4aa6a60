//! The energy counter source of the model-specific-register backends, and the
//! correction of counter wraparound.

use vstd::prelude::*;
use crate::analysis::MeterError;
use crate::units::{unit_quanta, unit_set_of, UnitSet, QUANTA_PER_UNIT};

verus! {

/// AMD: the power-unit register.
pub const AMD_MSR_PWR_UNIT: u64 = 0xC0010299;
/// AMD: the per-core energy-status register.
pub const AMD_MSR_CORE_ENERGY: u64 = 0xC001029A;
/// AMD: the package energy-status register.
pub const AMD_MSR_PACKAGE_ENERGY: u64 = 0xC001029B;
/// Intel RAPL: the power-unit register.
pub const MSR_RAPL_POWER_UNIT: u64 = 0x606;
/// Intel RAPL: the core (power plane 0) energy-status register.
pub const MSR_PP0_ENERGY_STATUS: u64 = 0x639;
/// Intel RAPL: the package energy-status register.
pub const MSR_PKG_ENERGY_STATUS: u64 = 0x611;

/// The number of distinct values of an energy counter, which is 32 bits wide.
pub const COUNTER_SPAN: u64 = 0x1_0000_0000;

/// The energy that a register value stands for, in quanta: the whole 64-bit
/// value times the energy unit.
pub open spec fn scaled_energy(raw: u64, u: UnitSet) -> int {
    raw * unit_quanta(u.energy_exponent as nat)
}

/// The true energy delta behind a scaled delta of a counter that may have
/// wrapped once.
pub open spec fn rollover_of(delta: int, u: UnitSet) -> int {
    if delta < 0 {
        delta + COUNTER_SPAN * unit_quanta(u.energy_exponent as nat)
    } else {
        delta
    }
}

/// The corrected energy delta between two readings of one counter.
pub open spec fn counter_delta(prev: u64, cur: u64, u: UnitSet) -> int {
    rollover_of(scaled_energy(cur, u) - scaled_energy(prev, u), u)
}

/// Sum of the scaled readings of cores `[0, n)`.
pub open spec fn energy_sum(units: Seq<UnitSet>, raws: Seq<u64>, n: int) -> int
    decreases n,
{
    if n <= 0 {
        0
    } else {
        energy_sum(units, raws, n - 1) + scaled_energy(raws[n - 1], units[n - 1])
    }
}

/// Sum of the corrected deltas of cores `[0, n)`.
pub open spec fn delta_sum(units: Seq<UnitSet>, prev: Seq<u64>, cur: Seq<u64>, n: int) -> int
    decreases n,
{
    if n <= 0 {
        0
    } else {
        delta_sum(units, prev, cur, n - 1) + counter_delta(prev[n - 1], cur[n - 1], units[n - 1])
    }
}

/// No core's corrected delta among cores `[0, n)` is negative, as for
/// counters that wrapped at most once.
pub open spec fn deltas_consistent(units: Seq<UnitSet>, prev: Seq<u64>, cur: Seq<u64>, n: int) -> bool {
    forall|i: int| 0 <= i < n ==> #[trigger] counter_delta(prev[i], cur[i], units[i]) >= 0
}

/// Bound on a scaled reading: below `2^95`.
pub const SCALED_BOUND: u128 = 0x8000_0000_0000_0000_0000_0000;

proof fn lemma_scaled_bound(raw: u64, u: UnitSet)
    requires
        u.wf(),
    ensures
        0 <= scaled_energy(raw, u) < SCALED_BOUND,
        raw < COUNTER_SPAN ==> scaled_energy(raw, u) < COUNTER_SPAN * unit_quanta(u.energy_exponent as nat),
        0 < COUNTER_SPAN * unit_quanta(u.energy_exponent as nat) <= 0x8000_0000_0000_0000,
{
    crate::units::lemma_unit_range_and_order(u.energy_exponent as nat, u.energy_exponent as nat);
    let q = unit_quanta(u.energy_exponent as nat);
    assert(raw * q < 0x1_0000_0000_0000_0000 * QUANTA_PER_UNIT) by (nonlinear_arith)
        requires raw < 0x1_0000_0000_0000_0000int, 0 < q <= QUANTA_PER_UNIT;
    assert(raw * q >= 0) by (nonlinear_arith)
        requires q > 0;
    if raw < COUNTER_SPAN {
        assert(raw * q < COUNTER_SPAN * q) by (nonlinear_arith)
            requires raw < COUNTER_SPAN, q > 0;
    }
    assert(COUNTER_SPAN * q <= COUNTER_SPAN * QUANTA_PER_UNIT) by (nonlinear_arith)
        requires q <= QUANTA_PER_UNIT;
}

proof fn lemma_delta_bound(prev: u64, cur: u64, u: UnitSet)
    requires
        u.wf(),
    ensures
        -SCALED_BOUND < counter_delta(prev, cur, u) < SCALED_BOUND + 0x8000_0000_0000_0000,
{
    lemma_scaled_bound(prev, u);
    lemma_scaled_bound(cur, u);
}

/// Rollover correction: the corrected delta is the scaled delta plus one
/// counter span where the reading went down, the scaled delta itself
/// otherwise; for readings of a 32-bit counter it is never negative.
pub proof fn lemma_rollover_correct(prev: u64, cur: u64, u: UnitSet)
    requires
        u.wf(),
    ensures
        scaled_energy(cur, u) < scaled_energy(prev, u) ==> counter_delta(prev, cur, u) == scaled_energy(
            cur,
            u,
        ) - scaled_energy(prev, u) + COUNTER_SPAN * unit_quanta(u.energy_exponent as nat),
        scaled_energy(cur, u) >= scaled_energy(prev, u) ==> counter_delta(prev, cur, u)
            == scaled_energy(cur, u) - scaled_energy(prev, u),
        prev < COUNTER_SPAN && cur < COUNTER_SPAN ==> 0 <= counter_delta(prev, cur, u) < COUNTER_SPAN
            * unit_quanta(u.energy_exponent as nat),
{
    lemma_scaled_bound(prev, u);
    lemma_scaled_bound(cur, u);
}

/// Scales a register value by an energy unit.
pub fn scale_energy(units: UnitSet, raw: u64) -> (r: u128)
    requires
        units.wf(),
    ensures
        r == scaled_energy(raw, units),
        r < SCALED_BOUND,
{
    proof {
        lemma_scaled_bound(raw, units);
    }
    raw as u128 * units.energy_unit() as u128
}

/// Corrects a delta of scaled readings for one wraparound of the counter.
pub fn correct_rollover(units: UnitSet, delta: i128) -> (r: i128)
    requires
        units.wf(),
    ensures
        r == rollover_of(delta as int, units),
{
    if delta < 0 {
        proof {
            lemma_scaled_bound(0, units);
        }
        delta + COUNTER_SPAN as i128 * units.energy_unit() as i128
    } else {
        delta
    }
}

/// The corrected energy delta between two register values of one counter.
pub fn counter_energy_delta(units: UnitSet, prev: u64, cur: u64) -> (r: i128)
    requires
        units.wf(),
    ensures
        r == counter_delta(prev, cur, units),
{
    proof {
        lemma_scaled_bound(prev, units);
        lemma_scaled_bound(cur, units);
    }
    let a = scale_energy(units, prev);
    let b = scale_energy(units, cur);
    correct_rollover(units, b as i128 - a as i128)
}

proof fn lemma_energy_sum_grows(units: Seq<UnitSet>, raws: Seq<u64>, i: int, n: int)
    requires
        0 <= i <= n <= raws.len(),
        n <= units.len(),
        forall|k: int| 0 <= k < units.len() ==> #[trigger] units[k].wf(),
    ensures
        0 <= energy_sum(units, raws, i) <= energy_sum(units, raws, n),
    decreases n - i, i,
{
    if i < n {
        lemma_energy_sum_grows(units, raws, i, n - 1);
        lemma_scaled_bound(raws[n - 1], units[n - 1]);
    } else if i > 0 {
        lemma_energy_sum_grows(units, raws, i - 1, i - 1);
        lemma_scaled_bound(raws[i - 1], units[i - 1]);
    }
}

proof fn lemma_delta_sum_grows(units: Seq<UnitSet>, prev: Seq<u64>, cur: Seq<u64>, i: int, n: int)
    requires
        0 <= i <= n,
        deltas_consistent(units, prev, cur, n),
    ensures
        0 <= delta_sum(units, prev, cur, i) <= delta_sum(units, prev, cur, n),
    decreases n - i, i,
{
    if i < n {
        lemma_delta_sum_grows(units, prev, cur, i, n - 1);
        assert(counter_delta(prev[n - 1], cur[n - 1], units[n - 1]) >= 0);
    } else if i > 0 {
        lemma_delta_sum_grows(units, prev, cur, i - 1, i - 1);
        assert(counter_delta(prev[i - 1], cur[i - 1], units[i - 1]) >= 0);
    }
}

/// The vendor of a model-specific-register backend.
#[derive(Clone, Copy, Debug, PartialEq, Eq, Structural)]
pub enum MsrVendor {
    Amd,
    Intel,
}

/// Power-unit register of a vendor.
pub open spec fn unit_register_of(v: MsrVendor) -> u64 {
    match v {
        MsrVendor::Amd => AMD_MSR_PWR_UNIT,
        MsrVendor::Intel => MSR_RAPL_POWER_UNIT,
    }
}

/// Per-core energy register of a vendor.
pub open spec fn core_register_of(v: MsrVendor) -> u64 {
    match v {
        MsrVendor::Amd => AMD_MSR_CORE_ENERGY,
        MsrVendor::Intel => MSR_PP0_ENERGY_STATUS,
    }
}

/// Package energy register of a vendor.
pub open spec fn package_register_of(v: MsrVendor) -> u64 {
    match v {
        MsrVendor::Amd => AMD_MSR_PACKAGE_ENERGY,
        MsrVendor::Intel => MSR_PKG_ENERGY_STATUS,
    }
}

/// The power-unit register of a vendor, read on every core before the
/// context is built.
pub fn power_unit_register(vendor: MsrVendor) -> (r: u64)
    ensures
        r == unit_register_of(vendor),
{
    match vendor {
        MsrVendor::Amd => AMD_MSR_PWR_UNIT,
        MsrVendor::Intel => MSR_RAPL_POWER_UNIT,
    }
}

/// An energy counter source backed by model-specific registers: one unit set
/// per physical core, core `0` also scaling the package counter.
#[derive(Debug)]
pub struct MsrContext {
    pub vendor: MsrVendor,
    pub units: Vec<UnitSet>,
}

impl MsrContext {
    pub open spec fn wf(&self) -> bool {
        &&& self.units@.len() >= 1
        &&& forall|i: int| 0 <= i < self.units@.len() ==> #[trigger] self.units@[i].wf()
    }

    /// Builds the context from the power-unit register value of each physical
    /// core, in core order. Without any core the backend is unavailable.
    pub fn new(vendor: MsrVendor, unit_registers: &Vec<u64>) -> (r: Result<MsrContext, MeterError>)
        ensures
            unit_registers@.len() == 0 <==> r == Err::<MsrContext, MeterError>(MeterError::BackendUnavailable),
            unit_registers@.len() > 0 <==> r is Ok,
            r is Ok ==> {
                let c = r->Ok_0;
                &&& c.wf()
                &&& c.vendor == vendor
                &&& c.units@.len() == unit_registers@.len()
                &&& forall|i: int| 0 <= i < c.units@.len() ==> #[trigger] c.units@[i] == unit_set_of(unit_registers@[i])
            },
    {
        if unit_registers.len() == 0 {
            return Err(MeterError::BackendUnavailable);
        }
        let mut units: Vec<UnitSet> = Vec::new();
        let mut i: usize = 0;
        while i < unit_registers.len()
            invariant
                i <= unit_registers@.len(),
                units@.len() == i,
                forall|j: int| 0 <= j < i ==> #[trigger] units@[j] == unit_set_of(unit_registers@[j]) && units@[j].wf(),
            decreases unit_registers@.len() - i,
        {
            units.push(UnitSet::from_register(unit_registers[i]));
            i = i + 1;
        }
        Ok(MsrContext { vendor, units })
    }

    /// The register that holds the power units.
    pub fn unit_register(&self) -> (r: u64)
        ensures
            r == unit_register_of(self.vendor),
    {
        power_unit_register(self.vendor)
    }

    /// The register that holds a core's energy counter.
    pub fn core_energy_register(&self) -> (r: u64)
        ensures
            r == core_register_of(self.vendor),
    {
        match self.vendor {
            MsrVendor::Amd => AMD_MSR_CORE_ENERGY,
            MsrVendor::Intel => MSR_PP0_ENERGY_STATUS,
        }
    }

    /// The register that holds the package energy counter, read on core `0`.
    pub fn package_energy_register(&self) -> (r: u64)
        ensures
            r == package_register_of(self.vendor),
    {
        match self.vendor {
            MsrVendor::Amd => AMD_MSR_PACKAGE_ENERGY,
            MsrVendor::Intel => MSR_PKG_ENERGY_STATUS,
        }
    }

    /// The number of physical cores.
    pub fn get_cores(&self) -> (r: usize)
        ensures
            r == self.units@.len(),
    {
        self.units.len()
    }

    /// The package energy that a package register value stands for.
    pub fn read_package_energy(&self, raw: u64) -> (r: u128)
        requires
            self.wf(),
        ensures
            r == scaled_energy(raw, self.units@[0]),
    {
        scale_energy(self.units[0], raw)
    }

    /// The energy that a core register value stands for; `None` for a core
    /// that does not exist.
    pub fn read_core_energy(&self, core: usize, raw: u64) -> (r: Option<u128>)
        requires
            self.wf(),
        ensures
            core >= self.units@.len() <==> r is None,
            r is Some ==> r->0 == scaled_energy(raw, self.units@[core as int]),
    {
        if core >= self.units.len() {
            None
        } else {
            Some(scale_energy(self.units[core], raw))
        }
    }

    /// The energies that the register values of all cores stand for.
    pub fn all_core_energy(&self, raws: &Vec<u64>) -> (r: Vec<u128>)
        requires
            self.wf(),
            raws@.len() == self.units@.len(),
        ensures
            r@.len() == raws@.len(),
            forall|i: int| 0 <= i < r@.len() ==> #[trigger] r@[i] == scaled_energy(raws@[i], self.units@[i]),
    {
        let mut r: Vec<u128> = Vec::new();
        let mut i: usize = 0;
        while i < raws.len()
            invariant
                self.wf(),
                raws@.len() == self.units@.len(),
                i <= raws@.len(),
                r@.len() == i,
                forall|j: int| 0 <= j < i ==> #[trigger] r@[j] == scaled_energy(raws@[j], self.units@[j]),
            decreases raws@.len() - i,
        {
            r.push(scale_energy(self.units[i], raws[i]));
            i = i + 1;
        }
        r
    }

    /// The sum of the energies that the register values of all cores stand
    /// for; `Overflow` where it does not fit 128 bits.
    pub fn all_core_energy_sum(&self, raws: &Vec<u64>) -> (r: Result<u128, MeterError>)
        requires
            self.wf(),
            raws@.len() == self.units@.len(),
        ensures
            energy_sum(self.units@, raws@, raws@.len() as int) <= u128::MAX <==> r is Ok,
            r is Ok ==> r == Ok::<u128, MeterError>(energy_sum(self.units@, raws@, raws@.len() as int) as u128),
            r is Err ==> r == Err::<u128, MeterError>(MeterError::Overflow),
    {
        let mut sum: u128 = 0;
        let mut i: usize = 0;
        while i < raws.len()
            invariant
                self.wf(),
                raws@.len() == self.units@.len(),
                i <= raws@.len(),
                sum == energy_sum(self.units@, raws@, i as int),
            decreases raws@.len() - i,
        {
            let e = scale_energy(self.units[i], raws[i]);
            if sum > u128::MAX - e {
                proof {
                    lemma_energy_sum_grows(self.units@, raws@, i + 1, raws@.len() as int);
                }
                return Err(MeterError::Overflow);
            }
            sum = sum + e;
            i = i + 1;
        }
        Ok(sum)
    }

    /// Corrects the scaled delta of core `core`'s counter for wraparound. A
    /// delta that is not negative passes unchanged, whatever the core.
    pub fn rollover(&self, core: usize, delta: i128) -> (r: i128)
        requires
            self.wf(),
            delta < 0 ==> core < self.units@.len(),
        ensures
            delta >= 0 ==> r == delta,
            delta < 0 ==> r == rollover_of(delta as int, self.units@[core as int]),
    {
        if delta >= 0 {
            delta
        } else {
            correct_rollover(self.units[core], delta)
        }
    }

    /// The corrected package energy consumed between two package register values.
    pub fn package_energy_delta(&self, prev: u64, cur: u64) -> (r: i128)
        requires
            self.wf(),
        ensures
            r == counter_delta(prev, cur, self.units@[0]),
    {
        counter_energy_delta(self.units[0], prev, cur)
    }

    /// The corrected energy consumed by all cores between two sets of core
    /// register values. A core whose corrected delta is negative, which a
    /// counter that wrapped at most once cannot give, is a `CounterReadError`;
    /// a sum beyond 128 bits is an `Overflow`.
    pub fn cpu_energy_delta(&self, prev: &Vec<u64>, cur: &Vec<u64>) -> (r: Result<u128, MeterError>)
        requires
            self.wf(),
            prev@.len() == self.units@.len(),
            cur@.len() == self.units@.len(),
        ensures
            !deltas_consistent(self.units@, prev@, cur@, cur@.len() as int) <==> r == Err::<u128, MeterError>(
                MeterError::CounterReadError,
            ),
            deltas_consistent(self.units@, prev@, cur@, cur@.len() as int) ==> if delta_sum(
                self.units@,
                prev@,
                cur@,
                cur@.len() as int,
            ) <= u128::MAX {
                r == Ok::<u128, MeterError>(delta_sum(self.units@, prev@, cur@, cur@.len() as int) as u128)
            } else {
                r == Err::<u128, MeterError>(MeterError::Overflow)
            },
    {
        let n = cur.len();
        let mut i: usize = 0;
        while i < n
            invariant
                self.wf(),
                n == cur@.len(),
                prev@.len() == self.units@.len(),
                cur@.len() == self.units@.len(),
                i <= n,
                deltas_consistent(self.units@, prev@, cur@, i as int),
            decreases n - i,
        {
            let d = counter_energy_delta(self.units[i], prev[i], cur[i]);
            if d < 0 {
                return Err(MeterError::CounterReadError);
            }
            i = i + 1;
        }
        let mut sum: u128 = 0;
        let mut i: usize = 0;
        while i < n
            invariant
                self.wf(),
                n == cur@.len(),
                prev@.len() == self.units@.len(),
                cur@.len() == self.units@.len(),
                i <= n,
                deltas_consistent(self.units@, prev@, cur@, n as int),
                sum == delta_sum(self.units@, prev@, cur@, i as int),
            decreases n - i,
        {
            let d = counter_energy_delta(self.units[i], prev[i], cur[i]);
            proof {
                lemma_delta_bound(prev@[i as int], cur@[i as int], self.units@[i as int]);
                assert(counter_delta(prev@[i as int], cur@[i as int], self.units@[i as int]) >= 0);
            }
            let e = d as u128;
            if sum > u128::MAX - e {
                proof {
                    lemma_delta_sum_grows(self.units@, prev@, cur@, i + 1, n as int);
                }
                return Err(MeterError::Overflow);
            }
            sum = sum + e;
            i = i + 1;
        }
        Ok(sum)
    }
}

} // verus!
