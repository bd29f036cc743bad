use vstd::prelude::*;
use crate::error::MiasmaError;
use crate::pipeline::DissolutionParams;

verus! {

/// Configuration for the repair protocol.
#[derive(Debug, Clone, Copy)]
pub struct RepairConfig {
    /// Minimum number of reachable holders before repair is triggered.
    pub replication_min: usize,
    /// How often to check replication health (seconds).
    pub check_interval_secs: u64,
}

impl Default for RepairConfig {
    /// Twelve holders; hourly checks.
    fn default() -> (c: Self)
        ensures
            c.replication_min == 12,
            c.check_interval_secs == 3600,
    {
        RepairConfig { replication_min: 12, check_interval_secs: 3600 }
    }
}

/// Coordinates proactive share repair across the network.
#[derive(Debug, Clone, Copy)]
pub struct RepairCoordinator {
    pub config: RepairConfig,
}

impl RepairCoordinator {
    /// A coordinator with the given configuration.
    pub fn new(config: RepairConfig) -> (c: Self)
        ensures
            c.config == config,
    {
        RepairCoordinator { config }
    }

    /// Whether content with `reachable_holders` reachable holders needs repair.
    pub fn needs_repair(&self, _mid: &[u8], reachable_holders: usize) -> (b: bool)
        ensures
            b == (reachable_holders < self.config.replication_min),
    {
        reachable_holders < self.config.replication_min
    }

    /// The number of replacement shares a repair redistributes: `n - k`.
    pub fn repair(&self, _mid: &[u8], params: DissolutionParams, _plaintext: &[u8]) -> (r: Result<usize, MiasmaError>)
        requires
            params.data_shards <= params.total_shards,
        ensures
            r == Ok::<usize, MiasmaError>((params.total_shards - params.data_shards) as usize),
    {
        Ok(params.recovery_shards())
    }
}

} // verus!
