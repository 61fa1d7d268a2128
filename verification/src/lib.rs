//! Reports how many logical and physical processing units the current
//! process may use, taking control-group CPU quotas into account.
//!
//! The crate holds the portable logic only: parsing the topology
//! description, resolving the `cpu` control group through the mount
//! table, computing the effective quota, and combining those signals
//! with the scheduler-affinity probe.  The probes themselves (syscalls
//! and file reads) live with the embedding application, which hands
//! their results in as plain values.

use vstd::prelude::*;

pub mod cache;
pub mod cgroup;
mod text;
pub mod topology;

pub use cache::CpuCache;
pub use cache::cgroups_num_cpus;
pub use cache::get_num_cpus;
pub use cache::init_cgroups;
pub use cgroup::Cgroup;
pub use cgroup::MountInfo;
pub use cgroup::Subsys;
pub use cgroup::load_cgroups;
pub use topology::get_num_physical_cpus;

verus! {

/// The number of CPUs available to the current process: the frozen
/// quota budget when the one-time resolution stored one, else the
/// current affinity signal.  Always at least one.
///
/// `logical` is the affinity prober's signal: how many logical CPUs
/// the scheduler lets the process run on, at least one by that
/// prober's own contract.
pub fn get(cache: &CpuCache, logical: usize) -> (r: usize)
    requires
        logical >= 1,
    ensures
        r == cache::spec_num_cpus(*cache, logical),
        r >= 1,
{
    cache::get_num_cpus(cache, logical)
}

/// The number of physical cores of the current system, from the given
/// topology description; where that is absent or adds up to nothing,
/// the same value [`get`] reports.  Always at least one.
pub fn get_physical(cpuinfo: Option<&Vec<String>>, cache: &CpuCache, logical: usize) -> (r:
    usize)
    requires
        logical >= 1,
    ensures
        r >= 1,
        match cpuinfo {
            Some(lines) => ({
                let total = topology::physical_count_spec(lines.deep_view());
                if 0 < total <= usize::MAX {
                    r == total
                } else {
                    r == cache::spec_num_cpus(*cache, logical)
                }
            }),
            None => r == cache::spec_num_cpus(*cache, logical),
        },
{
    topology::get_num_physical_cpus(cpuinfo, cache, logical)
}

} // verus!
