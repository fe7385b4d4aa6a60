//! The attribution analyzer: trims the sample series and integrates the
//! energy that the monitored process tree's CPU time accounts for.

use vstd::prelude::*;

verus! {

/// Nanoseconds in one second.
pub const NANOS_PER_SECOND: u128 = 1_000_000_000;

/// One element of the time series, produced once per sampling tick.
#[derive(Clone, Copy, Debug, PartialEq, Eq, Structural)]
pub struct Sample {
    /// Wall-clock time of the tick, in nanoseconds from any fixed origin.
    pub timestamp_ns: u64,
    /// Package energy consumed since the previous tick, in quanta.
    pub package_energy: u128,
    /// Energy of all cores consumed since the previous tick, in quanta.
    pub cpu_energy: u128,
    /// Cumulative on-CPU time of the process tree at this tick, in nanoseconds.
    pub sched_time: u128,
}

/// A trim fraction `num / den` in `[0, 1)`.
#[derive(Clone, Copy, Debug, PartialEq, Eq, Structural)]
pub struct Fraction {
    pub num: u64,
    pub den: u64,
}

impl Fraction {
    pub open spec fn wf(self) -> bool {
        0 < self.den && self.num < self.den
    }
}

/// Failures of a metering run.
#[derive(Clone, Copy, Debug, PartialEq, Eq, Structural)]
pub enum MeterError {
    /// The counter backend could not be initialised.
    BackendUnavailable,
    /// A counter read failed after initialisation.
    CounterReadError,
    /// Too few samples, or no interval left after trimming.
    InsufficientData,
    /// A total does not fit the 128-bit fixed-point representation.
    Overflow,
}

/// The outcome of an analysis. Energies are in quanta (2^-31 J), powers in
/// quanta per second (2^-31 W).
#[derive(Clone, Copy, Debug, PartialEq, Eq, Structural)]
pub struct Attribution {
    pub start_index: usize,
    pub end_index: usize,
    pub total_package_energy: u128,
    pub total_cpu_energy: u128,
    pub attributed_cpu_energy: u128,
    pub elapsed_ns: u64,
    pub avg_system_power: u128,
    pub avg_cpu_power: u128,
    pub avg_attributed_power: u128,
}

/// `max(1, ceil(n * f))`: the first sample index whose interval is analysed.
pub open spec fn trim_start(n: nat, f: Fraction) -> nat {
    let c = (n * f.num + f.den - 1) / f.den as int;
    if c < 1 { 1 } else { c as nat }
}

/// `floor(n * (1 - f))`: the end (exclusive) of the analysed intervals.
pub open spec fn trim_end(n: nat, f: Fraction) -> nat {
    ((n * (f.den - f.num)) / f.den as int) as nat
}

/// The interval ending at sample `i` enters the totals: both scheduling times
/// were observed (non-zero), and the interval has a defined share. A share
/// needs a scheduling time that did not go down (else the tree's share of the
/// core time would be negative, as when a child's pid is reused with a smaller
/// time) and a clock that advanced (else the share divides by zero wall
/// time); an interval without one is skipped as an unobserved one is, with
/// its energies.
pub open spec fn usable(s: Seq<Sample>, i: int) -> bool {
    &&& s[i - 1].sched_time != 0
    &&& s[i].sched_time != 0
    &&& s[i - 1].sched_time <= s[i].sched_time
    &&& s[i - 1].timestamp_ns < s[i].timestamp_ns
}

/// The product of the interval's CPU energy and its scheduling-time delta.
pub open spec fn share_numerator(s: Seq<Sample>, i: int) -> int {
    s[i].cpu_energy * (s[i].sched_time - s[i - 1].sched_time)
}

/// Total core time available during the interval: cores times wall time.
pub open spec fn share_denominator(s: Seq<Sample>, i: int, cores: nat) -> int {
    cores * (s[i].timestamp_ns - s[i - 1].timestamp_ns)
}

/// The CPU energy of interval `i` weighted by the process tree's share of all
/// core time, rounded down to a quantum.
pub open spec fn interval_share(s: Seq<Sample>, i: int, cores: nat) -> int {
    share_numerator(s, i) / share_denominator(s, i, cores)
}

/// Sum of package energy over the usable intervals ending in `[lo, hi)`.
pub open spec fn package_total(s: Seq<Sample>, lo: int, hi: int) -> int
    decreases hi - lo,
{
    if hi <= lo {
        0
    } else {
        package_total(s, lo, hi - 1) + if usable(s, hi - 1) { s[hi - 1].package_energy as int } else { 0 }
    }
}

/// Sum of CPU energy over the usable intervals ending in `[lo, hi)`.
pub open spec fn cpu_total(s: Seq<Sample>, lo: int, hi: int) -> int
    decreases hi - lo,
{
    if hi <= lo {
        0
    } else {
        cpu_total(s, lo, hi - 1) + if usable(s, hi - 1) { s[hi - 1].cpu_energy as int } else { 0 }
    }
}

/// Sum of the attributed shares over the usable intervals ending in `[lo, hi)`.
pub open spec fn attributed_total(s: Seq<Sample>, lo: int, hi: int, cores: nat) -> int
    decreases hi - lo,
{
    if hi <= lo {
        0
    } else {
        attributed_total(s, lo, hi - 1, cores) + if usable(s, hi - 1) {
            interval_share(s, hi - 1, cores)
        } else {
            0
        }
    }
}

/// Some usable interval in `[lo, hi)` has a share numerator beyond 128 bits.
pub open spec fn numerator_overflows(s: Seq<Sample>, lo: int, hi: int) -> bool {
    exists|i: int| lo <= i < hi && usable(s, i) && share_numerator(s, i) > u128::MAX
}

/// Average power over `elapsed` nanoseconds, rounded down.
pub open spec fn average_power(energy: int, elapsed: int) -> int {
    energy * NANOS_PER_SECOND / elapsed
}

/// The window `[start, end]` of sample indices holds at least one interval and
/// spans a positive time.
pub open spec fn window_ok(s: Seq<Sample>, start: nat, end: nat) -> bool {
    &&& start < end
    &&& end < s.len()
    &&& s[start as int].timestamp_ns < s[end as int].timestamp_ns
}

/// All the quantities of the analysis fit 128 bits.
pub open spec fn fits(s: Seq<Sample>, start: int, end: int, cores: nat) -> bool {
    &&& !numerator_overflows(s, start, end)
    &&& package_total(s, start, end) * NANOS_PER_SECOND <= u128::MAX
    &&& cpu_total(s, start, end) * NANOS_PER_SECOND <= u128::MAX
    &&& attributed_total(s, start, end, cores) * NANOS_PER_SECOND <= u128::MAX
}

/// What the analysis of `s` over `cores` cores, trimmed by `su` at the start and
/// by `eu` at the end, yields.
pub open spec fn analysis_of(s: Seq<Sample>, cores: nat, su: Fraction, eu: Fraction) -> Result<
    Attribution,
    MeterError,
> {
    let start = trim_start(s.len(), su);
    let end = trim_end(s.len(), eu);
    if s.len() <= 3 || !window_ok(s, start, end) {
        Err(MeterError::InsufficientData)
    } else if !fits(s, start as int, end as int, cores) {
        Err(MeterError::Overflow)
    } else {
        let elapsed = s[end as int].timestamp_ns - s[start as int].timestamp_ns;
        let pkg = package_total(s, start as int, end as int);
        let cpu = cpu_total(s, start as int, end as int);
        let att = attributed_total(s, start as int, end as int, cores);
        Ok(
            Attribution {
                start_index: start as usize,
                end_index: end as usize,
                total_package_energy: pkg as u128,
                total_cpu_energy: cpu as u128,
                attributed_cpu_energy: att as u128,
                elapsed_ns: elapsed as u64,
                avg_system_power: average_power(pkg, elapsed) as u128,
                avg_cpu_power: average_power(cpu, elapsed) as u128,
                avg_attributed_power: average_power(att, elapsed) as u128,
            },
        )
    }
}

/// Computes the trimmed window `(start, end)` for `n` samples.
pub fn trim_window(n: usize, startup_ignore: Fraction, end_ignore: Fraction) -> (r: (usize, usize))
    requires
        startup_ignore.wf(),
        end_ignore.wf(),
    ensures
        r.0 == trim_start(n as nat, startup_ignore),
        r.1 == trim_end(n as nat, end_ignore),
        r.1 <= n,
{
    let su_num = startup_ignore.num as u128;
    let su_den = startup_ignore.den as u128;
    let eu_num = end_ignore.num as u128;
    let eu_den = end_ignore.den as u128;
    let nn = n as u128;
    proof {
        assert(nn * su_num <= nn * su_den) by (nonlinear_arith)
            requires su_num < su_den;
        assert(nn * su_den <= 0xffff_ffff_ffff_ffffu128 * 0xffff_ffff_ffff_ffffu128) by (nonlinear_arith)
            requires nn <= 0xffff_ffff_ffff_ffffu128, su_den <= 0xffff_ffff_ffff_ffffu128;
        assert(nn * (eu_den - eu_num) <= 0xffff_ffff_ffff_ffffu128 * 0xffff_ffff_ffff_ffffu128) by (nonlinear_arith)
            requires nn <= 0xffff_ffff_ffff_ffffu128, eu_den - eu_num <= 0xffff_ffff_ffff_ffffu128;
        assert((nn * (eu_den - eu_num)) / (eu_den as int) <= nn) by (nonlinear_arith)
            requires eu_den > 0, eu_num < eu_den;
    }
    let ceil = (nn * su_num + su_den - 1) / su_den;
    let start: u128 = if ceil < 1 { 1 } else { ceil };
    proof {
        assert(ceil <= nn) by (nonlinear_arith)
            requires ceil == (nn * su_num + su_den - 1) / (su_den as int), su_num < su_den, su_den > 0;
    }
    let end = (nn * (eu_den - eu_num)) / eu_den;
    (start as usize, end as usize)
}

proof fn lemma_totals_grow(s: Seq<Sample>, lo: int, a: int, b: int, cores: nat)
    requires
        lo <= a <= b,
        b <= s.len(),
        1 <= lo,
        cores > 0,
    ensures
        package_total(s, lo, a) <= package_total(s, lo, b),
        cpu_total(s, lo, a) <= cpu_total(s, lo, b),
        attributed_total(s, lo, a, cores) <= attributed_total(s, lo, b, cores),
    decreases b - a,
{
    if a < b {
        lemma_totals_grow(s, lo, a, b - 1, cores);
        if usable(s, b - 1) {
            lemma_share_nonnegative(s, b - 1, cores);
        }
    }
}

proof fn lemma_share_nonnegative(s: Seq<Sample>, i: int, cores: nat)
    requires
        1 <= i < s.len(),
        usable(s, i),
        cores > 0,
    ensures
        interval_share(s, i, cores) >= 0,
        share_denominator(s, i, cores) > 0,
{
    let n = share_numerator(s, i);
    let d = share_denominator(s, i, cores);
    assert(n >= 0) by (nonlinear_arith)
        requires n == s[i].cpu_energy * (s[i].sched_time - s[i - 1].sched_time),
            s[i - 1].sched_time <= s[i].sched_time;
    assert(d > 0) by (nonlinear_arith)
        requires d == cores * (s[i].timestamp_ns - s[i - 1].timestamp_ns),
            cores > 0, s[i - 1].timestamp_ns < s[i].timestamp_ns;
    assert(n / d >= 0) by (nonlinear_arith)
        requires n >= 0, d > 0;
}

/// Analyses a completed sample series. `core_count` cores make up the total
/// core time against which the process tree's scheduling time is weighed;
/// `startup_ignore` and `end_ignore` are the fractions of samples trimmed at
/// either end. The result is a function of the arguments alone.
pub fn analyze(
    samples: &Vec<Sample>,
    core_count: usize,
    startup_ignore: Fraction,
    end_ignore: Fraction,
) -> (r: Result<Attribution, MeterError>)
    requires
        core_count > 0,
        startup_ignore.wf(),
        end_ignore.wf(),
    ensures
        r == analysis_of(samples@, core_count as nat, startup_ignore, end_ignore),
{
    let ghost s = samples@;
    let ghost cores = core_count as nat;
    let n = samples.len();
    let (start, end) = trim_window(n, startup_ignore, end_ignore);
    if n <= 3 || start >= end || end >= n || samples[start].timestamp_ns >= samples[end].timestamp_ns {
        return Err(MeterError::InsufficientData);
    }
    let mut pkg: u128 = 0;
    let mut cpu: u128 = 0;
    let mut att: u128 = 0;
    let mut i: usize = start;
    while i < end
        invariant
            s == samples@,
            cores == core_count as nat,
            core_count > 0,
            1 <= start <= i <= end < n == s.len(),
            3 < n,
            start < end,
            s[start as int].timestamp_ns < s[end as int].timestamp_ns,
            start == trim_start(n as nat, startup_ignore),
            end == trim_end(n as nat, end_ignore),
            pkg == package_total(s, start as int, i as int),
            cpu == cpu_total(s, start as int, i as int),
            att == attributed_total(s, start as int, i as int, cores),
            !numerator_overflows(s, start as int, i as int),
        ensures
            i == end,
        decreases end - i,
    {
        let prev = samples[i - 1];
        let cur = samples[i];
        if prev.sched_time != 0 && cur.sched_time != 0 && prev.sched_time <= cur.sched_time
            && prev.timestamp_ns < cur.timestamp_ns {
            proof {
                lemma_share_nonnegative(s, i as int, cores);
            }
            let sched_delta = cur.sched_time - prev.sched_time;
            let wall_delta = cur.timestamp_ns - prev.timestamp_ns;
            let product = cur.cpu_energy.checked_mul(sched_delta);
            if product.is_none() {
                assert(prev == s[i - 1] && cur == s[i as int]);
                assert(share_numerator(s, i as int) == cur.cpu_energy * sched_delta);
                assert(usable(s, i as int) && share_numerator(s, i as int) > u128::MAX);
                assert(numerator_overflows(s, start as int, end as int));
                return Err(MeterError::Overflow);
            }
            let numerator = product.unwrap();
            proof {
                assert(core_count as u128 * wall_delta as u128 <= 0xffff_ffff_ffff_ffffu128 * 0xffff_ffff_ffff_ffffu128) by (nonlinear_arith)
                    requires core_count <= 0xffff_ffff_ffff_ffffu128, wall_delta <= 0xffff_ffff_ffff_ffffu128;
            }
            let denominator = core_count as u128 * wall_delta as u128;
            let share = numerator / denominator;
            if pkg > u128::MAX - cur.package_energy || cpu > u128::MAX - cur.cpu_energy || att > u128::MAX - share {
                proof {
                    lemma_totals_grow(s, start as int, i + 1, end as int, cores);
                }
                return Err(MeterError::Overflow);
            }
            pkg = pkg + cur.package_energy;
            cpu = cpu + cur.cpu_energy;
            att = att + share;
        }
        proof {
            assert forall|j: int| start <= j < i + 1 && usable(s, j) implies share_numerator(s, j) <= u128::MAX by {
                if j < i {
                    assert(!(start <= j < i && usable(s, j) && share_numerator(s, j) > u128::MAX));
                }
            }
        }
        i = i + 1;
    }
    let elapsed = samples[end].timestamp_ns - samples[start].timestamp_ns;
    if pkg > u128::MAX / NANOS_PER_SECOND || cpu > u128::MAX / NANOS_PER_SECOND
        || att > u128::MAX / NANOS_PER_SECOND {
        return Err(MeterError::Overflow);
    }
    Ok(
        Attribution {
            start_index: start,
            end_index: end,
            total_package_energy: pkg,
            total_cpu_energy: cpu,
            attributed_cpu_energy: att,
            elapsed_ns: elapsed,
            avg_system_power: pkg * NANOS_PER_SECOND / elapsed as u128,
            avg_cpu_power: cpu * NANOS_PER_SECOND / elapsed as u128,
            avg_attributed_power: att * NANOS_PER_SECOND / elapsed as u128,
        },
    )
}

} // verus!
