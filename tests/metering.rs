use energy_meter::analysis::{analyze, trim_window, Fraction, MeterError, Sample};
use energy_meter::counter::{
    correct_rollover, counter_energy_delta, power_unit_register, scale_energy, MsrContext, MsrVendor, AMD_MSR_CORE_ENERGY,
    AMD_MSR_PACKAGE_ENERGY, AMD_MSR_PWR_UNIT, MSR_PKG_ENERGY_STATUS, MSR_PP0_ENERGY_STATUS,
    MSR_RAPL_POWER_UNIT,
};
use energy_meter::fields::{parse_first_u64, parse_pid_list};
use energy_meter::platform::physical_core_count;
use energy_meter::sampler::{rail_energy, Backend, Reading, Sampler, SamplerState};
use energy_meter::tracker::{ChildReading, ProcessCpuTime};
use energy_meter::units::{unit_from_exponent, UnitSet, QUANTA_PER_UNIT};

const JOULE: u128 = 1u128 << 31;

fn fifth() -> Fraction {
    Fraction { num: 1, den: 5 }
}

fn series(n: usize, cpu_energy: u128, sched_step: u128, spacing_ns: u64) -> Vec<Sample> {
    (0..n)
        .map(|i| Sample {
            timestamp_ns: i as u64 * spacing_ns,
            package_energy: 3 * JOULE,
            cpu_energy,
            sched_time: (i as u128 + 1) * sched_step,
        })
        .collect()
}

#[test]
fn unit_factors_lie_in_unit_interval_and_decrease() {
    assert_eq!(unit_from_exponent(0), QUANTA_PER_UNIT);
    assert_eq!(unit_from_exponent(31), 1);
    assert_eq!(unit_from_exponent(16), 1 << 15);
    let mut last = u64::MAX;
    for e in 0..=31u8 {
        let u = unit_from_exponent(e);
        assert!(u > 0 && u <= QUANTA_PER_UNIT);
        assert!(u < last);
        last = u;
    }
}

#[test]
fn unit_register_fields_are_decoded() {
    let u = UnitSet::from_register(0x000A_1003);
    assert_eq!(u, UnitSet { time_exponent: 0xA, energy_exponent: 0x10, power_exponent: 3 });
    let all = UnitSet::from_register(u64::MAX);
    assert_eq!(all, UnitSet { time_exponent: 15, energy_exponent: 31, power_exponent: 15 });
    assert_eq!(u.energy_unit(), 1 << 15);
    assert_eq!(u.time_unit(), 1 << 21);
    assert_eq!(u.power_unit(), 1 << 28);
}

#[test]
fn energy_is_scaled_from_the_whole_register() {
    let u = UnitSet::from_register(0x1000);
    assert_eq!(scale_energy(u, 3), 3 << 15);
    assert_eq!(scale_energy(u, 1u64 << 32), 1u128 << 47);
    assert_eq!(scale_energy(u, (7u64 << 32) | 3), (7u128 << 47) | (3 << 15));
    assert_eq!(scale_energy(UnitSet::from_register(0), u64::MAX), (u64::MAX as u128) << 31);
}

#[test]
fn rollover_adds_one_counter_span_on_a_drop() {
    let u = UnitSet::from_register(0x1000);
    assert_eq!(correct_rollover(u, -(5i128 << 15)), (1i128 << 47) - (5i128 << 15));
    assert_eq!(correct_rollover(u, 5i128 << 15), 5i128 << 15);
    assert_eq!(correct_rollover(u, 0), 0);
    // Counter wrapped from near its top to 0x100.
    assert_eq!(counter_energy_delta(u, 0xFFFF_FF00, 0x100), 0x200 << 15);
    assert_eq!(counter_energy_delta(u, 0x100, 0x300), 0x200 << 15);
}

#[test]
fn msr_context_without_cores_is_unavailable() {
    let r = MsrContext::new(MsrVendor::Amd, &vec![]);
    assert_eq!(r.err(), Some(MeterError::BackendUnavailable));
}

#[test]
fn msr_context_decodes_each_core() {
    let c = MsrContext::new(MsrVendor::Amd, &vec![0x000A_1003, 0xFFFF_FFFF_FFF0_E000]).unwrap();
    assert_eq!(c.get_cores(), 2);
    assert_eq!(c.units[0], UnitSet { time_exponent: 0xA, energy_exponent: 0x10, power_exponent: 3 });
    assert_eq!(c.units[1], UnitSet { time_exponent: 0, energy_exponent: 0, power_exponent: 0 });
    assert_eq!(c.units[1].energy_unit(), QUANTA_PER_UNIT);
}

#[test]
fn msr_context_reads_scaled_energies() {
    let c = MsrContext::new(MsrVendor::Intel, &vec![0x1000, 0x0E00]).unwrap();
    assert_eq!(c.get_cores(), 2);
    assert_eq!(c.unit_register(), MSR_RAPL_POWER_UNIT);
    assert_eq!(c.core_energy_register(), MSR_PP0_ENERGY_STATUS);
    assert_eq!(c.package_energy_register(), MSR_PKG_ENERGY_STATUS);
    assert_eq!(c.read_package_energy(2), 2 << 15);
    assert_eq!(c.read_package_energy(1u64 << 32), 1u128 << 47);
    assert_eq!(c.read_core_energy(1, 2), Some(2 << 17));
    assert_eq!(c.read_core_energy(1, 1u64 << 40), Some(1u128 << 57));
    assert_eq!(c.read_core_energy(2, 2), None);
    assert_eq!(c.all_core_energy(&vec![1, 1u64 << 33]), vec![1 << 15, 1u128 << 50]);
    assert_eq!(c.all_core_energy_sum(&vec![1, 1]), Ok((1 << 15) + (1 << 17)));
    assert_eq!(c.rollover(1, -1), (1i128 << 49) - 1);
    assert_eq!(c.rollover(7, 12), 12);
    assert_eq!(c.cpu_energy_delta(&vec![10, 0xFFFF_FFFF], &vec![12, 1]), Ok((2 << 15) + (2 << 17)));
    assert_eq!(c.package_energy_delta(10, 4), ((1i128 << 32) - 6) << 15);
    // A drop of more than one counter span leaves a negative corrected delta.
    assert_eq!(c.package_energy_delta(1u64 << 40, 0), ((1i128 << 32) - (1i128 << 40)) << 15);
    assert_eq!(c.cpu_energy_delta(&vec![1u64 << 40, 0], &vec![0, 0]), Err(MeterError::CounterReadError));
    assert_eq!(power_unit_register(MsrVendor::Amd), AMD_MSR_PWR_UNIT);
    assert_eq!(power_unit_register(MsrVendor::Intel), MSR_RAPL_POWER_UNIT);
    let a = MsrContext::new(MsrVendor::Amd, &vec![0x1000]).unwrap();
    assert_eq!(a.unit_register(), AMD_MSR_PWR_UNIT);
    assert_eq!(a.core_energy_register(), AMD_MSR_CORE_ENERGY);
    assert_eq!(a.package_energy_register(), AMD_MSR_PACKAGE_ENERGY);
}

#[test]
fn trim_window_of_ten_samples() {
    assert_eq!(trim_window(10, fifth(), fifth()), (2, 8));
    assert_eq!(trim_window(4, Fraction { num: 0, den: 1 }, fifth()), (1, 3));
    assert_eq!(trim_window(4, Fraction { num: 1, den: 5 }, Fraction { num: 0, den: 1 }), (1, 4));
}

#[test]
fn three_samples_are_insufficient() {
    let s = series(3, 2 * JOULE, 10_000_000, 50_000_000);
    assert_eq!(analyze(&s, 4, fifth(), fifth()), Err(MeterError::InsufficientData));
    assert_eq!(analyze(&Vec::new(), 4, fifth(), fifth()), Err(MeterError::InsufficientData));
}

#[test]
fn window_past_the_last_sample_is_insufficient() {
    let s = series(10, 2 * JOULE, 10_000_000, 50_000_000);
    assert_eq!(analyze(&s, 4, fifth(), Fraction { num: 0, den: 1 }), Err(MeterError::InsufficientData));
}

#[test]
fn ten_samples_attribute_a_tenth_per_interval() {
    let s = series(10, 2 * JOULE, 10_000_000, 50_000_000);
    let r = analyze(&s, 4, fifth(), fifth()).unwrap();
    assert_eq!((r.start_index, r.end_index), (2, 8));
    // 2 J * 10 ms / (4 * 50 ms) = 0.1 J per interval, rounded down to a quantum.
    assert_eq!(r.attributed_cpu_energy, 6 * (2 * JOULE * 10_000_000 / 200_000_000));
    let joules = r.attributed_cpu_energy as f64 / JOULE as f64;
    assert!((joules - 0.6).abs() < 1e-8);
    assert_eq!(r.total_cpu_energy, 12 * JOULE);
    assert_eq!(r.total_package_energy, 18 * JOULE);
    assert_eq!(r.elapsed_ns, 300_000_000);
    assert_eq!(r.avg_cpu_power, 40 * JOULE);
    assert_eq!(r.avg_system_power, 60 * JOULE);
    let watts = r.avg_attributed_power as f64 / JOULE as f64;
    assert!((watts - 2.0).abs() < 1e-6);
}

#[test]
fn analysis_is_repeatable() {
    let s = series(12, 5 * JOULE, 7_000_000, 50_000_000);
    let a = analyze(&s, 8, fifth(), Fraction { num: 1, den: 10 });
    let b = analyze(&s, 8, fifth(), Fraction { num: 1, den: 10 });
    assert!(a.is_ok());
    assert_eq!(a, b);
}

#[test]
fn unobserved_scheduling_time_skips_the_interval() {
    let mut s = series(10, 2 * JOULE, 10_000_000, 50_000_000);
    s[4].sched_time = 0;
    let r = analyze(&s, 4, fifth(), fifth()).unwrap();
    // Intervals ending at 4 and 5 are skipped.
    assert_eq!(r.total_cpu_energy, 8 * JOULE);
    assert_eq!(r.attributed_cpu_energy, 4 * (2 * JOULE * 10_000_000 / 200_000_000));
}

#[test]
fn attributed_total_beyond_128_bits_overflows() {
    let s = series(10, u64::MAX as u128, u64::MAX as u128, 1);
    assert_eq!(analyze(&s, 1, fifth(), fifth()), Err(MeterError::Overflow));
}

#[test]
fn failed_child_read_keeps_last_known_time() {
    let mut t = ProcessCpuTime::new();
    let x = 4_000_000u64;
    let tick4 = t.tick(Some(1_000), &vec![ChildReading { pid: 77, cpu_time: Some(x) }]);
    assert_eq!(tick4, 1_000 + x as u128);
    let tick5 = t.tick(Some(2_000), &vec![ChildReading { pid: 77, cpu_time: None }]);
    assert_eq!(tick5, 2_000 + x as u128);
    assert_eq!(t.entries, vec![(77, x)]);
}

#[test]
fn exited_child_still_counts_and_own_failure_counts_zero() {
    let mut t = ProcessCpuTime::new();
    t.tick(Some(10), &vec![ChildReading { pid: 1, cpu_time: Some(5) }, ChildReading { pid: 2, cpu_time: Some(6) }]);
    let r = t.tick(None, &vec![ChildReading { pid: 2, cpu_time: Some(9) }]);
    assert_eq!(r, 5 + 9);
    assert_eq!(t.entries, vec![(1, 5), (2, 9)]);
}

#[test]
fn combined_time_does_not_decrease_for_growing_children() {
    let mut t = ProcessCpuTime::new();
    let mut last = 0u128;
    for k in 1..6u64 {
        let r = t.tick(
            Some(100 * k),
            &vec![ChildReading { pid: 3, cpu_time: Some(50 * k) }, ChildReading { pid: 9, cpu_time: Some(7 * k) }],
        );
        assert!(r >= last);
        last = r;
    }
    assert_eq!(last, 500 + 250 + 35);
}

#[test]
fn first_field_is_parsed_as_decimal() {
    assert_eq!(parse_first_u64(&b"123456789 2000 17\n".to_vec()), Some(123456789));
    assert_eq!(parse_first_u64(&b"  \t+42 x".to_vec()), Some(42));
    assert_eq!(parse_first_u64(&b"18446744073709551615".to_vec()), Some(u64::MAX));
    assert_eq!(parse_first_u64(&b"18446744073709551616".to_vec()), None);
    assert_eq!(parse_first_u64(&b"12a 3".to_vec()), None);
    assert_eq!(parse_first_u64(&b"+".to_vec()), None);
    assert_eq!(parse_first_u64(&b"   ".to_vec()), None);
    assert_eq!(parse_first_u64(&Vec::new()), None);
}

#[test]
fn board_rail_energy_is_power_times_time() {
    assert_eq!(rail_energy(1_000, 1_000_000_000), JOULE);
    assert_eq!(rail_energy(0, 1_000_000_000), 0);
    assert_eq!(rail_energy(500, 4_000_000_000), 2 * JOULE);
    assert_eq!(rail_energy(1, 1), 0);
}

#[test]
fn msr_sampler_records_corrected_deltas() {
    let c = MsrContext::new(MsrVendor::Amd, &vec![0x1000, 0x1000]).unwrap();
    let first = Reading::Msr { package_raw: 0xFFFF_FFF0, core_raws: vec![100, 200] };
    let mut s = Sampler::new(Backend::Msr(c), first, 0);
    let st = s.tick(
        50_000_000,
        Reading::Msr { package_raw: 0x10, core_raws: vec![110, 230] },
        Some(1_000),
        &vec![ChildReading { pid: 5, cpu_time: Some(500) }],
        false,
    );
    assert_eq!(st, Ok(SamplerState::Running));
    let st = s.tick(100_000_000, Reading::Msr { package_raw: 0x20, core_raws: vec![110, 230] }, None, &vec![], true);
    assert_eq!(st, Ok(SamplerState::Exited));
    assert_eq!(s.samples.len(), 2);
    assert_eq!(
        s.samples[0],
        Sample { timestamp_ns: 50_000_000, package_energy: 0x20 << 15, cpu_energy: 40 << 15, sched_time: 1_500 }
    );
    assert_eq!(s.samples[1], Sample { timestamp_ns: 100_000_000, package_energy: 0x10 << 15, cpu_energy: 0, sched_time: 500 });
}

#[test]
fn board_sampler_integrates_power_over_the_interval() {
    let mut s = Sampler::new(Backend::Board, Reading::Board { system_mw: 0, aux_mw: 0, cpu_mw: 0 }, 1_000);
    s.tick(
        1_000 + 500_000_000,
        Reading::Board { system_mw: 4_000, aux_mw: 100, cpu_mw: 2_000 },
        Some(10),
        &vec![],
        false,
    );
    assert_eq!(s.samples[0].package_energy, 2 * JOULE);
    assert_eq!(s.samples[0].cpu_energy, JOULE);
    assert_eq!(s.state, SamplerState::Running);
}

#[test]
fn sampler_analysis_uses_this_machine() {
    assert!(physical_core_count() >= 1);
    let mut s = Sampler::new(Backend::Board, Reading::Board { system_mw: 0, aux_mw: 0, cpu_mw: 0 }, 0);
    for k in 1..=10u64 {
        s.tick(k * 50_000_000, Reading::Board { system_mw: 1_000, aux_mw: 0, cpu_mw: 1_000 }, Some(k * 1_000_000), &vec![], k == 10);
    }
    assert!(s.core_count() >= 1);
    let r = s.analyze(fifth(), fifth()).unwrap();
    assert_eq!(r.total_cpu_energy, 6 * (JOULE / 20));
    assert_eq!(r.total_package_energy, 6 * (JOULE / 20));
}

#[test]
fn msr_sampler_analyses_against_its_physical_cores() {
    let c = MsrContext::new(MsrVendor::Intel, &vec![0x1000; 4]).unwrap();
    let mut s = Sampler::new(Backend::Msr(c), Reading::Msr { package_raw: 0, core_raws: vec![0; 4] }, 0);
    for k in 1..=10u64 {
        let raw = k * (1u64 << 16);
        let st = s.tick(
            k * 50_000_000,
            Reading::Msr { package_raw: 3 * raw, core_raws: vec![raw / 2; 4] },
            Some(k * 10_000_000),
            &vec![],
            k == 10,
        );
        assert!(st.is_ok());
    }
    assert_eq!(s.core_count(), 4);
    let r = s.analyze(fifth(), fifth()).unwrap();
    assert_eq!(r, analyze(&s.samples, 4, fifth(), fifth()).unwrap());
    // Each tick: 2 J over the cores, 10 ms of 4 * 50 ms of core time.
    assert_eq!(r.total_cpu_energy, 12 * JOULE);
    assert_eq!(r.attributed_cpu_energy, 6 * (2 * JOULE / 20));
}

#[test]
fn msr_tick_with_an_impossible_drop_changes_nothing() {
    let c = MsrContext::new(MsrVendor::Amd, &vec![0x1000, 0x1000]).unwrap();
    let mut s = Sampler::new(Backend::Msr(c), Reading::Msr { package_raw: 0x10, core_raws: vec![1u64 << 40, 230] }, 0);
    let err = s.tick(1, Reading::Msr { package_raw: 0x10, core_raws: vec![0, 230] }, Some(5), &vec![], false);
    assert_eq!(err, Err(MeterError::CounterReadError));
    assert!(s.samples.is_empty());
    assert!(s.tracker.entries.is_empty());
    assert_eq!(s.state, SamplerState::Running);
    let err = s.tick(1, Reading::Msr { package_raw: 0, core_raws: vec![1u64 << 40, 230] }, Some(5), &vec![], false);
    assert_eq!(err, Ok(SamplerState::Running));
}

#[test]
fn core_energy_sum_of_full_registers() {
    let c = MsrContext::new(MsrVendor::Amd, &vec![0; 1 << 12]).unwrap();
    let raws = vec![u64::MAX; 1 << 12];
    assert_eq!(c.all_core_energy_sum(&raws), Ok(((u64::MAX as u128) << 31) * (1 << 12)));
}
