//! The effective-count cache: the quota resolver runs once per
//! process, and what it found is frozen into a [`CpuCache`] that the
//! embedding application builds a single time (behind its own run-once
//! primitive) and then shares.  A stored budget of zero is the
//! sentinel for "no usable quota": the affinity signal is then probed
//! afresh on every call instead.

use vstd::prelude::*;

verus! {

/// The frozen result of the one-time quota resolution.  The type has
/// no mutating method, so a value can never be re-initialized: the
/// stored budget is fixed for the value's lifetime.
pub struct CpuCache {
    /// The effective CPU budget, already clamped to the affinity
    /// signal seen at initialization; `0` means "no usable quota".
    pub cgroups_cpus: usize,
}

/// What the reported logical count is, given the cache and the current
/// affinity signal: the frozen budget when one was stored, else the
/// fresh affinity signal.
pub open spec fn spec_num_cpus(cache: CpuCache, logical: usize) -> usize {
    if cache.cgroups_cpus > 0 {
        cache.cgroups_cpus
    } else {
        logical
    }
}

/// Builds the cache from the quota resolver's outcome and the affinity
/// signal seen at initialization: a positive quota is clamped to that
/// signal and stored; no quota, or a zero quota, stores the sentinel.
pub fn init_cgroups(quota: Option<usize>, logical: usize) -> (c: CpuCache)
    requires
        logical >= 1,
    ensures
        c.cgroups_cpus == (match quota {
            Some(q) => if q > 0 {
                if q < logical {
                    q
                } else {
                    logical
                }
            } else {
                0usize
            },
            None => 0usize,
        }),
{
    match quota {
        Some(q) => {
            if q > 0 {
                let count = if q < logical {
                    q
                } else {
                    logical
                };
                CpuCache { cgroups_cpus: count }
            } else {
                CpuCache { cgroups_cpus: 0 }
            }
        },
        None => CpuCache { cgroups_cpus: 0 },
    }
}

/// The stored budget, if one was stored.
pub fn cgroups_num_cpus(cache: &CpuCache) -> (r: Option<usize>)
    ensures
        r == (if cache.cgroups_cpus > 0 {
            Some(cache.cgroups_cpus)
        } else {
            None::<usize>
        }),
{
    if cache.cgroups_cpus > 0 {
        Some(cache.cgroups_cpus)
    } else {
        None
    }
}

/// The number of CPUs available to the process: the frozen quota
/// budget when one was stored, else the current affinity signal.
/// Always at least one.
pub fn get_num_cpus(cache: &CpuCache, logical: usize) -> (r: usize)
    requires
        logical >= 1,
    ensures
        r == spec_num_cpus(*cache, logical),
        r >= 1,
{
    match cgroups_num_cpus(cache) {
        Some(n) => n,
        None => logical,
    }
}

/// Law: once a budget has been stored, the reported count is frozen —
/// it no longer depends on the affinity signal, so repeated calls
/// within the process agree even if the underlying control-group
/// files change after initialization.
pub proof fn lemma_cached_count_frozen(cache: CpuCache, l1: usize, l2: usize)
    requires
        cache.cgroups_cpus > 0,
    ensures
        spec_num_cpus(cache, l1) == spec_num_cpus(cache, l2),
{
}

} // verus!
