use esp32_hardware_monitor::metrics::{
    cpu_usage_percent, filetime_to_u64, is_3d_engine_counter, ram_usage_percent, CpuSampler,
    Metrics, MetricsCollector, SystemTimes,
};

#[test]
fn filetime_halves_join() {
    assert_eq!(filetime_to_u64(0, 0), 0);
    assert_eq!(filetime_to_u64(0, 0xffff_ffff), 0xffff_ffff);
    assert_eq!(filetime_to_u64(1, 0), 0x1_0000_0000);
    assert_eq!(filetime_to_u64(0x0123_4567, 0x89ab_cdef), 0x0123_4567_89ab_cdef);
    assert_eq!(filetime_to_u64(u32::MAX, u32::MAX), u64::MAX);
}

fn times(idle: u64, kernel: u64, user: u64) -> SystemTimes {
    SystemTimes { idle, kernel, user }
}

#[test]
fn cpu_usage_rounds_half_up() {
    // total 8, idle 7: busy 1 of 8 is 12.5 percent, which rounds to 13.
    assert_eq!(cpu_usage_percent(times(0, 0, 0), times(7, 4, 4)), 13);
    // busy 1 of 3 is 33.3 percent.
    assert_eq!(cpu_usage_percent(times(0, 0, 0), times(2, 2, 1)), 33);
    // busy 2 of 3 is 66.7 percent.
    assert_eq!(cpu_usage_percent(times(0, 0, 0), times(1, 2, 1)), 67);
    // All busy, none busy.
    assert_eq!(cpu_usage_percent(times(0, 0, 0), times(0, 50, 50)), 100);
    assert_eq!(cpu_usage_percent(times(10, 10, 0), times(110, 110, 0)), 0);
}

#[test]
fn cpu_usage_edge_cases() {
    // No time elapsed.
    assert_eq!(cpu_usage_percent(times(5, 5, 5), times(5, 5, 5)), 0);
    // Counters that went back count as no time.
    assert_eq!(cpu_usage_percent(times(100, 100, 100), times(0, 0, 0)), 0);
    // More idle than total time is no busy time.
    assert_eq!(cpu_usage_percent(times(0, 0, 0), times(500, 100, 100)), 0);
    // Large counters.
    assert_eq!(
        cpu_usage_percent(times(0, 0, 0), times(u64::MAX / 4, u64::MAX / 2, u64::MAX / 2)),
        75
    );
}

#[test]
fn cpu_sampler_needs_two_snapshots() {
    let mut s = CpuSampler::new();
    assert_eq!(s.sample(None), None);
    assert_eq!(s.previous, None);
    assert_eq!(s.sample(Some(times(0, 100, 100))), None);
    assert_eq!(s.sample(Some(times(50, 200, 200))), Some(75));
    assert_eq!(s.sample(None), None);
    assert_eq!(s.previous, Some(times(50, 200, 200)));
}

#[test]
fn ram_usage_is_capped() {
    assert_eq!(ram_usage_percent(0), 0);
    assert_eq!(ram_usage_percent(68), 68);
    assert_eq!(ram_usage_percent(100), 100);
    assert_eq!(ram_usage_percent(250), 100);
    assert_eq!(ram_usage_percent(u32::MAX), 100);
}

#[test]
fn collector_fills_missing_figures_with_zero() {
    let mut c = MetricsCollector::new();
    let m = c.sample(Some(times(0, 10, 10)), None, None);
    assert_eq!(m, Metrics { cpu: 0, gpu: 0, ram: 0 });
    let m = c.sample(Some(times(10, 20, 20)), Some(42), Some(68));
    assert_eq!(m, Metrics { cpu: 50, gpu: 42, ram: 68 });
}

#[test]
fn gpu_3d_engine_names() {
    assert!(is_3d_engine_counter("pid_1234_luid_0x0_0x1_phys_0_eng_0_engtype_3D"));
    assert!(is_3d_engine_counter("ENGTYPE_3D"));
    assert!(!is_3d_engine_counter("pid_1_luid_0x0_phys_0_eng_1_engtype_Copy"));
    assert!(!is_3d_engine_counter("engtype_VideoDecode"));
    assert!(!is_3d_engine_counter(""));
}
