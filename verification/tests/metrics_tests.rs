use sim_core::metrics::aggregate_system_metrics;

#[test]
fn aggregate_computes_exact_fixed_point_values() {
    let samples: Vec<u32> = vec![1000, 3000];
    let m = aggregate_system_metrics(&samples, 1_048_576_000, 2_097_152_000, 4096);
    assert_eq!(m.cpu_usage_bp, 2000);
    assert_eq!(m.memory_used_kb, 1_024_000);
    assert_eq!(m.memory_total_kb, 2_048_000);
    assert_eq!(m.memory_usage_bp, 5000);
    assert_eq!(m.process_memory_kb, 4);
}

#[test]
fn aggregate_handles_empty_samples_and_zero_totals() {
    let samples: Vec<u32> = Vec::new();
    let m = aggregate_system_metrics(&samples, 0, 0, 0);
    assert_eq!(m.cpu_usage_bp, 0);
    assert_eq!(m.memory_used_kb, 0);
    assert_eq!(m.memory_total_kb, 0);
    assert_eq!(m.memory_usage_bp, 0);
    assert_eq!(m.process_memory_kb, 0);
}

#[test]
fn aggregate_yields_valid_percentages() {
    // The record is always internally consistent: shares within the
    // hundred-percent bound, used memory within total.
    let samples: Vec<u32> = vec![0, 10000, 5000, 2500];
    let m = aggregate_system_metrics(&samples, 3_000_000_000, 8_000_000_000, 123_456_789);
    assert!(m.cpu_usage_bp <= 10000);
    assert!(m.memory_usage_bp <= 10000);
    assert!(m.memory_used_kb <= m.memory_total_kb);
    assert_eq!(m.cpu_usage_bp, 4375);
    assert_eq!(m.memory_usage_bp, 3750);
}

#[test]
fn aggregate_truncates_sub_kilobyte_remainders() {
    let samples: Vec<u32> = vec![100];
    let m = aggregate_system_metrics(&samples, 2047, 4095, 1023);
    assert_eq!(m.cpu_usage_bp, 100);
    assert_eq!(m.memory_used_kb, 1);
    assert_eq!(m.memory_total_kb, 3);
    assert_eq!(m.process_memory_kb, 0);
}
