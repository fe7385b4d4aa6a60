//! The unit table: scaling factors decoded from a power-unit register.

use vstd::prelude::*;

verus! {

/// `2^n`.
pub open spec fn two_pow(n: nat) -> nat
    decreases n,
{
    if n == 0 {
        1
    } else {
        2 * two_pow((n - 1) as nat)
    }
}

/// Quanta in one unit: a quantum is 2^-31 of the unit that a factor of 1 scales to.
pub const QUANTA_PER_UNIT: u64 = 0x8000_0000;

/// The factor `0.5^e` in quanta: `2^(31 - e)`.
pub open spec fn unit_quanta(e: nat) -> nat {
    two_pow((31 - e) as nat)
}

/// Bits 19:16 of the power-unit register: the time exponent.
pub open spec fn time_field(reg: u64) -> nat {
    (reg / 0x1_0000 % 16) as nat
}

/// Bits 12:8 of the power-unit register: the energy exponent.
pub open spec fn energy_field(reg: u64) -> nat {
    (reg / 0x100 % 32) as nat
}

/// Bits 3:0 of the power-unit register: the power exponent.
pub open spec fn power_field(reg: u64) -> nat {
    (reg % 16) as nat
}

/// The exponents that a power-unit register value holds.
pub open spec fn unit_set_of(reg: u64) -> UnitSet {
    UnitSet {
        time_exponent: time_field(reg) as u8,
        energy_exponent: energy_field(reg) as u8,
        power_exponent: power_field(reg) as u8,
    }
}

/// Scaling exponents of one core: each factor is `0.5^exponent`.
#[derive(Clone, Copy, Debug, PartialEq, Eq, Structural)]
pub struct UnitSet {
    pub time_exponent: u8,
    pub energy_exponent: u8,
    pub power_exponent: u8,
}

proof fn lemma_two_pow_step(n: nat)
    ensures
        two_pow(n + 1) == 2 * two_pow(n),
{
}

/// Every factor `0.5^e` with `e` in `[0, 31]` lies in `(0, 1]`, and a larger
/// exponent gives a strictly smaller factor.
pub proof fn lemma_unit_range_and_order(e: nat, f: nat)
    requires
        e <= 31,
        f <= 31,
    ensures
        0 < unit_quanta(e) <= QUANTA_PER_UNIT,
        e < f ==> unit_quanta(e) > unit_quanta(f),
    decreases 31 - e,
{
    lemma_two_pow_bounds((31 - e) as nat);
    if e < f {
        lemma_two_pow_increasing((31 - f) as nat, (31 - e) as nat);
    }
}

proof fn lemma_two_pow_bounds(n: nat)
    requires
        n <= 31,
    ensures
        0 < two_pow(n) <= two_pow(31),
        two_pow(31) == 0x8000_0000,
    decreases 31 - n,
{
    reveal_with_fuel(two_pow, 32);
    if n < 31 {
        lemma_two_pow_bounds(n + 1);
        lemma_two_pow_step(n);
    }
}

proof fn lemma_two_pow_increasing(a: nat, b: nat)
    requires
        a < b,
    ensures
        two_pow(a) < two_pow(b),
    decreases b - a,
{
    lemma_two_pow_positive(a);
    if a + 1 < b {
        lemma_two_pow_increasing(a + 1, b);
    }
    lemma_two_pow_step(a);
}

proof fn lemma_two_pow_positive(n: nat)
    ensures
        two_pow(n) > 0,
    decreases n,
{
    if n > 0 {
        lemma_two_pow_positive((n - 1) as nat);
    }
}

/// The factor `0.5^e` in quanta.
pub fn unit_from_exponent(e: u8) -> (r: u64)
    requires
        e <= 31,
    ensures
        r == unit_quanta(e as nat),
        0 < r <= QUANTA_PER_UNIT,
{
    proof {
        lemma_unit_range_and_order(e as nat, e as nat);
    }
    let steps: u8 = 31 - e;
    let mut r: u64 = 1;
    let mut i: u8 = 0;
    while i < steps
        invariant
            i <= steps,
            steps == 31 - e,
            r == two_pow(i as nat),
            two_pow(steps as nat) <= QUANTA_PER_UNIT,
        decreases steps - i,
    {
        proof {
            lemma_two_pow_step(i as nat);
        }
        assert(two_pow((i + 1) as nat) <= QUANTA_PER_UNIT) by {
            if ((i + 1) as nat) < steps as nat {
                lemma_two_pow_increasing((i + 1) as nat, steps as nat);
            }
        }
        r = r * 2;
        i = i + 1;
    }
    r
}

impl UnitSet {
    pub open spec fn wf(self) -> bool {
        &&& self.time_exponent <= 15
        &&& self.energy_exponent <= 31
        &&& self.power_exponent <= 15
    }

    /// Decodes the three exponents from a power-unit register value.
    pub fn from_register(reg: u64) -> (r: UnitSet)
        ensures
            r == unit_set_of(reg),
            r.wf(),
    {
        let t = (reg & 0xF0000) >> 16u64;
        let e = (reg & 0x1F00) >> 8u64;
        let p = reg & 0xF;
        assert(t == reg / 0x1_0000 % 16 && t < 16) by (bit_vector)
            requires t == (reg & 0xF0000) >> 16u64;
        assert(e == reg / 0x100 % 32 && e < 32) by (bit_vector)
            requires e == (reg & 0x1F00) >> 8u64;
        assert(p == reg % 16 && p < 16) by (bit_vector)
            requires p == reg & 0xF;
        UnitSet { time_exponent: t as u8, energy_exponent: e as u8, power_exponent: p as u8 }
    }

    /// The time unit in quanta of 2^-31 second.
    pub fn time_unit(&self) -> (r: u64)
        requires
            self.wf(),
        ensures
            r == unit_quanta(self.time_exponent as nat),
    {
        unit_from_exponent(self.time_exponent)
    }

    /// The energy unit in quanta of 2^-31 joule.
    pub fn energy_unit(&self) -> (r: u64)
        requires
            self.wf(),
        ensures
            r == unit_quanta(self.energy_exponent as nat),
            0 < r <= QUANTA_PER_UNIT,
    {
        unit_from_exponent(self.energy_exponent)
    }

    /// The power unit in quanta of 2^-31 watt.
    pub fn power_unit(&self) -> (r: u64)
        requires
            self.wf(),
        ensures
            r == unit_quanta(self.power_exponent as nat),
    {
        unit_from_exponent(self.power_exponent)
    }
}

} // verus!
