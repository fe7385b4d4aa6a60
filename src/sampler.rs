//! The sampler: one step of the sampling loop per tick, from the readings of
//! the tick to the next sample and the next state.

use vstd::prelude::*;
use crate::analysis::{analysis_of, analyze, Attribution, Fraction, MeterError, Sample};
use crate::counter::{counter_delta, deltas_consistent, delta_sum, MsrContext};
use crate::tracker::{apply_readings, combined_time, ChildReading, ProcessCpuTime};

verus! {

/// Milliwatt-nanoseconds (10^-12 J) are scaled to quanta (2^-31 J) by
/// `2^19 / 5^12`.
pub const BOARD_SCALE_NUM: u128 = 524_288;
/// See `BOARD_SCALE_NUM`.
pub const BOARD_SCALE_DEN: u128 = 244_140_625;

/// The energy, in quanta, of a rail drawing `power_mw` milliwatts for
/// `duration_ns` nanoseconds, rounded down.
pub open spec fn board_energy(power_mw: u64, duration_ns: u64) -> int {
    (power_mw * duration_ns * BOARD_SCALE_NUM) / BOARD_SCALE_DEN as int
}

/// Computes `board_energy(power_mw, duration_ns)`.
pub fn rail_energy(power_mw: u64, duration_ns: u64) -> (r: u128)
    ensures
        r == board_energy(power_mw, duration_ns),
{
    proof {
        assert(power_mw * duration_ns <= 0xffff_ffff_ffff_ffffu128 * 0xffff_ffff_ffff_ffffu128) by (nonlinear_arith)
            requires power_mw <= 0xffff_ffff_ffff_ffffu128, duration_ns <= 0xffff_ffff_ffff_ffffu128;
    }
    let x = power_mw as u128 * duration_ns as u128;
    let q = x / BOARD_SCALE_DEN;
    let rem = x % BOARD_SCALE_DEN;
    proof {
        assert(x as int <= 0xffff_ffff_ffff_ffffu128 * 0xffff_ffff_ffff_ffffu128) by (nonlinear_arith)
            requires x == power_mw * duration_ns;
        vstd::arithmetic::div_mod::lemma_fundamental_div_mod(x as int, BOARD_SCALE_DEN as int);
        let rr: int = rem * BOARD_SCALE_NUM;
        vstd::arithmetic::div_mod::lemma_fundamental_div_mod(rr as int, BOARD_SCALE_DEN as int);
        let a = rr / (BOARD_SCALE_DEN as int);
        let b = rr % (BOARD_SCALE_DEN as int);
        assert(x * BOARD_SCALE_NUM == (q * BOARD_SCALE_NUM + a) * BOARD_SCALE_DEN + b) by (nonlinear_arith)
            requires x == BOARD_SCALE_DEN * q + rem, rr == rem * BOARD_SCALE_NUM, rr == BOARD_SCALE_DEN * a + b;
        vstd::arithmetic::div_mod::lemma_fundamental_div_mod_converse(
            x * BOARD_SCALE_NUM,
            BOARD_SCALE_DEN as int,
            q * BOARD_SCALE_NUM + a,
            b,
        );
        assert(q * BOARD_SCALE_NUM * 465 <= q * BOARD_SCALE_DEN) by (nonlinear_arith)
            requires q >= 0;
        assert(q * BOARD_SCALE_NUM <= u128::MAX / 465);
    }
    q * BOARD_SCALE_NUM + rem * BOARD_SCALE_NUM / BOARD_SCALE_DEN
}

/// Where the energy figures come from.
#[derive(Debug)]
pub enum Backend {
    /// Energy counters in model-specific registers.
    Msr(MsrContext),
    /// Power sensors on the board: a system rail, an auxiliary rail and a CPU
    /// rail, in milliwatts, with no per-core figures.
    Board,
}

/// One tick's readings of the backend.
#[derive(Debug)]
pub enum Reading {
    /// The package register value and each core's register value.
    Msr { package_raw: u64, core_raws: Vec<u64> },
    /// The three rails' power, in milliwatts. The auxiliary rail enters no
    /// total: the system rail stands for the package, the CPU rail for the cores.
    Board { system_mw: u64, aux_mw: u64, cpu_mw: u64 },
}

/// The sampling loop's state.
#[derive(Clone, Copy, Debug, PartialEq, Eq, Structural)]
pub enum SamplerState {
    Running,
    Exited,
}

/// The sampling loop: the backend, the previous tick's readings, the child
/// process tracker and the series so far.
#[derive(Debug)]
pub struct Sampler {
    pub backend: Backend,
    pub last_reading: Reading,
    pub last_timestamp_ns: u64,
    pub tracker: ProcessCpuTime,
    pub samples: Vec<Sample>,
    pub state: SamplerState,
}

/// The reading fits the backend: register values for every core of a
/// register backend, rail powers for the board.
pub open spec fn reading_fits(b: Backend, r: Reading) -> bool {
    match b {
        Backend::Msr(c) => match r {
            Reading::Msr { core_raws, .. } => core_raws@.len() == c.units@.len(),
            Reading::Board { .. } => false,
        },
        Backend::Board => r is Board,
    }
}

/// The package and CPU energies of a tick at `ts`, from the previous readings
/// `prev` at `prev_ts`. Register counters give their corrected deltas; a
/// negative one, which a counter that wrapped at most once cannot give, is a
/// `CounterReadError`, and a CPU sum beyond 128 bits an `Overflow`. Board rails
/// integrate their power over the time since the previous tick; a clock that
/// went back counts as no time.
pub open spec fn tick_energy(b: Backend, prev: Reading, prev_ts: u64, cur: Reading, ts: u64) -> Result<
    (int, int),
    MeterError,
> {
    match (b, prev, cur) {
        (Backend::Msr(c), Reading::Msr { package_raw: p0, core_raws: c0 }, Reading::Msr { package_raw: p1, core_raws: c1 }) => {
            let pkg = counter_delta(p0, p1, c.units@[0]);
            if !deltas_consistent(c.units@, c0@, c1@, c1@.len() as int) {
                Err(MeterError::CounterReadError)
            } else if delta_sum(c.units@, c0@, c1@, c1@.len() as int) > u128::MAX {
                Err(MeterError::Overflow)
            } else if pkg < 0 {
                Err(MeterError::CounterReadError)
            } else {
                Ok((pkg, delta_sum(c.units@, c0@, c1@, c1@.len() as int)))
            }
        },
        (_, _, Reading::Board { system_mw, cpu_mw, .. }) => {
            let dt = if ts >= prev_ts { (ts - prev_ts) as u64 } else { 0 };
            Ok((board_energy(system_mw, dt), board_energy(cpu_mw, dt)))
        },
        _ => Ok((0, 0)),
    }
}

impl Sampler {
    pub open spec fn wf(&self) -> bool {
        &&& self.tracker.wf()
        &&& reading_fits(self.backend, self.last_reading)
        &&& (self.backend matches Backend::Msr(c) ==> c.wf())
    }

    /// Starts sampling from the backend's first readings at `timestamp_ns`.
    pub fn new(backend: Backend, first: Reading, timestamp_ns: u64) -> (r: Sampler)
        requires
            reading_fits(backend, first),
            backend matches Backend::Msr(c) ==> c.wf(),
        ensures
            r.wf(),
            r.backend == backend,
            r.last_reading == first,
            r.last_timestamp_ns == timestamp_ns,
            r.tracker.entries@.len() == 0,
            r.samples@.len() == 0,
            r.state == SamplerState::Running,
    {
        Sampler {
            backend,
            last_reading: first,
            last_timestamp_ns: timestamp_ns,
            tracker: ProcessCpuTime::new(),
            samples: Vec::new(),
            state: SamplerState::Running,
        }
    }

    /// One tick: the backend's readings at `timestamp_ns`, the monitored
    /// process's own scheduling time where it could be read, its children's
    /// readings, and whether it has exited. Appends one sample; the loop stops
    /// after the tick on which the process has exited. Where the energies of
    /// the tick are in error, nothing changes and the error is returned.
    pub fn tick(
        &mut self,
        timestamp_ns: u64,
        reading: Reading,
        own_sched: Option<u64>,
        children: &Vec<ChildReading>,
        exited: bool,
    ) -> (r: Result<SamplerState, MeterError>)
        requires
            old(self).wf(),
            old(self).state == SamplerState::Running,
            reading_fits(old(self).backend, reading),
        ensures
            final(self).wf(),
            final(self).backend == old(self).backend,
            ({
                let energy = tick_energy(
                    old(self).backend,
                    old(self).last_reading,
                    old(self).last_timestamp_ns,
                    reading,
                    timestamp_ns,
                );
                match energy {
                    Err(e) => {
                        &&& r == Err::<SamplerState, MeterError>(e)
                        &&& final(self).samples@ == old(self).samples@
                        &&& final(self).tracker.entries@ == old(self).tracker.entries@
                        &&& final(self).last_reading == old(self).last_reading
                        &&& final(self).last_timestamp_ns == old(self).last_timestamp_ns
                        &&& final(self).state == old(self).state
                    },
                    Ok((pkg, cpu)) => {
                        &&& final(self).tracker.entries@ == apply_readings(old(self).tracker.entries@, children@)
                        &&& final(self).samples@ == old(self).samples@.push(
                            Sample {
                                timestamp_ns,
                                package_energy: pkg as u128,
                                cpu_energy: cpu as u128,
                                sched_time: combined_time(
                                    match own_sched {
                                        Some(t) => t,
                                        None => 0,
                                    },
                                    final(self).tracker.entries@,
                                ) as u128,
                            },
                        )
                        &&& final(self).last_reading == reading
                        &&& final(self).last_timestamp_ns == timestamp_ns
                        &&& final(self).state == if exited { SamplerState::Exited } else { SamplerState::Running }
                        &&& r == Ok::<SamplerState, MeterError>(final(self).state)
                    },
                }
            }),
    {
        let dt: u64 = if timestamp_ns >= self.last_timestamp_ns {
            timestamp_ns - self.last_timestamp_ns
        } else {
            0
        };
        let (pkg, cpu): (u128, u128) = match &self.backend {
            Backend::Msr(c) => match (&self.last_reading, &reading) {
                (
                    Reading::Msr { package_raw: p0, core_raws: c0 },
                    Reading::Msr { package_raw: p1, core_raws: c1 },
                ) => {
                    let cpu = match c.cpu_energy_delta(c0, c1) {
                        Ok(v) => v,
                        Err(e) => {
                            return Err(e);
                        },
                    };
                    let pkg = c.package_energy_delta(*p0, *p1);
                    if pkg < 0 {
                        return Err(MeterError::CounterReadError);
                    }
                    (pkg as u128, cpu)
                },
                _ => (0, 0),
            },
            Backend::Board => match &reading {
                Reading::Board { system_mw, cpu_mw, .. } => (rail_energy(*system_mw, dt), rail_energy(*cpu_mw, dt)),
                _ => (0, 0),
            },
        };
        let sched = self.tracker.tick(own_sched, children);
        self.samples.push(
            Sample { timestamp_ns, package_energy: pkg, cpu_energy: cpu, sched_time: sched },
        );
        self.last_reading = reading;
        self.last_timestamp_ns = timestamp_ns;
        self.state = if exited { SamplerState::Exited } else { SamplerState::Running };
        Ok(self.state)
    }

    /// The number of cores against which the series is analysed: the
    /// backend's physical cores for registers, the logical CPUs of this
    /// machine for board sensors.
    pub fn core_count(&self) -> (r: usize)
        requires
            self.wf(),
        ensures
            r >= 1,
            self.backend matches Backend::Msr(c) ==> r == c.units@.len(),
    {
        match &self.backend {
            Backend::Msr(c) => c.get_cores(),
            Backend::Board => crate::platform::logical_cpus(),
        }
    }

    /// Analyses the series against `core_count()` cores.
    pub fn analyze(&self, startup_ignore: Fraction, end_ignore: Fraction) -> (r: Result<
        Attribution,
        MeterError,
    >)
        requires
            self.wf(),
            startup_ignore.wf(),
            end_ignore.wf(),
        ensures
            self.backend matches Backend::Msr(c) ==> r == analysis_of(
                self.samples@,
                c.units@.len(),
                startup_ignore,
                end_ignore,
            ),
            exists|cores: nat| cores >= 1 && r == analysis_of(self.samples@, cores, startup_ignore, end_ignore),
    {
        let cores = self.core_count();
        analyze(&self.samples, cores, startup_ignore, end_ignore)
    }
}

} // verus!
