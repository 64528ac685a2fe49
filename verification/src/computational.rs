//! Computational capacity that a node offers to the network, and the power
//! score derived from it.

use vstd::prelude::*;

verus! {

/// Computational resources a node offers.
#[derive(Debug, Clone, Copy, PartialEq, Eq, Structural)]
pub struct ComputationalCapacity {
    /// CPU cores available for network work.
    pub cpu_cores: u32,
    /// Memory in MB available for network work.
    pub memory_mb: u64,
    /// Storage in MB available for network work.
    pub storage_mb: u64,
    /// Network bandwidth in Mbps available for network work.
    pub network_mbps: u32,
    /// GPU compute units available, if any.
    pub gpu_compute_units: Option<u32>,
}

/// The power score of a capacity: 100 per core, one per GB of memory, one
/// per ten GB of storage, two per Mbps, and 200 per GPU unit.
pub open spec fn power_score(c: ComputationalCapacity) -> int {
    c.cpu_cores * 100 + c.memory_mb / 1024 + c.storage_mb / 10240 + c.network_mbps * 2 + match c.gpu_compute_units {
        Some(g) => g * 200,
        None => 0,
    }
}

impl ComputationalCapacity {
    /// Calculate a computational power score from the capacity.
    pub fn compute_power_score(&self) -> (r: u64)
        ensures
            r == power_score(*self),
    {
        let cpu_score = self.cpu_cores as u64 * 100;
        let memory_score = self.memory_mb / 1024;
        let storage_score = self.storage_mb / 10240;
        let network_score = self.network_mbps as u64 * 2;
        let gpu_units: u32 = match self.gpu_compute_units {
            Some(g) => g,
            None => 0,
        };
        let gpu_bonus = gpu_units as u64 * 200;
        cpu_score + memory_score + storage_score + network_score + gpu_bonus
    }
}

/// GPU units add to the score: with the rest of the capacity equal, a node
/// with at least one GPU unit scores more than one without.
pub proof fn law_gpu_raises_score(c: ComputationalCapacity, units: u32)
    requires
        units > 0,
    ensures
        power_score(ComputationalCapacity { gpu_compute_units: Some(units), ..c }) > power_score(
            ComputationalCapacity { gpu_compute_units: None, ..c },
        ),
{
}

/// More of any resource never lowers the score.
pub proof fn law_score_monotone(a: ComputationalCapacity, b: ComputationalCapacity)
    requires
        a.cpu_cores <= b.cpu_cores,
        a.memory_mb <= b.memory_mb,
        a.storage_mb <= b.storage_mb,
        a.network_mbps <= b.network_mbps,
        (match a.gpu_compute_units {
            Some(g) => g,
            None => 0u32,
        }) <= (match b.gpu_compute_units {
            Some(g) => g,
            None => 0u32,
        }),
    ensures
        power_score(a) <= power_score(b),
{
    assert(a.memory_mb / 1024 <= b.memory_mb / 1024) by (nonlinear_arith)
        requires
            a.memory_mb <= b.memory_mb,
    ;
    assert(a.storage_mb / 10240 <= b.storage_mb / 10240) by (nonlinear_arith)
        requires
            a.storage_mb <= b.storage_mb,
    ;
}

} // verus!
