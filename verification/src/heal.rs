//! Shard-redundancy healing policy figures; the monitoring loop that acts
//! on them is the surrounding program's work.

use vstd::prelude::*;

verus! {

/// Policy for keeping shard copies alive.
#[derive(Debug, Clone)]
pub struct AutoHealConfig {
    /// Fewest copies tolerated before healing starts.
    pub min_shard_copies: usize,
    /// Copies healing aims for.
    pub target_shard_copies: usize,
    /// Seconds between checks.
    pub check_interval_secs: u64,
    /// Whether healing runs at all.
    pub enabled: bool,
}

impl Default for AutoHealConfig {
    /// Three copies tolerated, five aimed for, five-minute checks, on.
    fn default() -> (r: AutoHealConfig)
        ensures
            r.min_shard_copies == 3,
            r.target_shard_copies == 5,
            r.check_interval_secs == 300,
            r.enabled,
    {
        AutoHealConfig {
            min_shard_copies: 3,
            target_shard_copies: 5,
            check_interval_secs: 300,
            enabled: true,
        }
    }
}

/// Healing counters.
#[derive(Debug, Clone, Default, PartialEq, Eq, Structural)]
pub struct HealStats {
    pub files_monitored: usize,
    pub heals_attempted: u64,
    pub heals_succeeded: u64,
    pub heals_failed: u64,
    pub shards_recovered: u64,
}

} // verus!
