use icn_economics::computational::ComputationalCapacity;

#[test]
fn test_computational_capacity_scoring() {
    let capacity = ComputationalCapacity {
        cpu_cores: 8,
        memory_mb: 16384,
        storage_mb: 1024000,
        network_mbps: 1000,
        gpu_compute_units: Some(4),
    };

    let score = capacity.compute_power_score();
    assert!(score > 0);

    let capacity_no_gpu = ComputationalCapacity { gpu_compute_units: None, ..capacity };
    assert!(capacity.compute_power_score() > capacity_no_gpu.compute_power_score());
}

#[test]
fn power_score_exact_value() {
    let capacity = ComputationalCapacity {
        cpu_cores: 8,
        memory_mb: 16384,
        storage_mb: 1024000,
        network_mbps: 1000,
        gpu_compute_units: Some(4),
    };
    assert_eq!(capacity.compute_power_score(), 800 + 16 + 100 + 2000 + 800);
    let empty = ComputationalCapacity { cpu_cores: 0, memory_mb: 1023, storage_mb: 10239, network_mbps: 0, gpu_compute_units: None };
    assert_eq!(empty.compute_power_score(), 0);
}
