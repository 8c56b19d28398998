//! Host resource monitoring: CPU and memory figures are recomputed fresh on
//! every query from the underlying system sampler; nothing is cached.

use vstd::prelude::*;

verus! {

/// The host sampler of the sysinfo crate, opaque to the verifier.
#[verifier::external_type_specification]
#[verifier::external_body]
pub struct ExSystem(sysinfo::System);

/// Relies on sysinfo::System::new_all: a sampler primed with a first
/// reading of every resource.
#[verifier::external_body]
fn sampler_new() -> (r: sysinfo::System)
{
    sysinfo::System::new_all()
}

/// Relies on sysinfo::System::refresh_all: re-reads every resource figure
/// from the host.
#[verifier::external_body]
fn sampler_refresh(sys: &mut sysinfo::System)
{
    sys.refresh_all()
}

/// Relies on sysinfo::System::global_cpu_usage: the aggregate CPU usage as
/// a percentage, truncated to whole percent. Nothing more is promised of
/// the value, which depends on the machine's load.
#[verifier::external_body]
fn sampler_cpu_pct(sys: &sysinfo::System) -> (r: u64)
{
    sys.global_cpu_usage() as u64
}

/// Relies on sysinfo::System::total_memory: the installed RAM in bytes.
/// The value depends on the machine.
#[verifier::external_body]
fn sampler_total_memory(sys: &sysinfo::System) -> (r: u64)
{
    sys.total_memory()
}

/// Relies on sysinfo::System::used_memory: the RAM in use, in bytes. The
/// value depends on the machine's load.
#[verifier::external_body]
fn sampler_used_memory(sys: &sysinfo::System) -> (r: u64)
{
    sys.used_memory()
}

/// A point-in-time measurement of host CPU and memory utilization.
pub struct ResourceSnapshot {
    pub cpu_usage_pct: u64,
    pub memory_total_bytes: u64,
    pub memory_used_bytes: u64,
    pub memory_used_pct: u64,
}

/// Memory usage as a whole percentage: used / total * 100, rounded down.
/// Zero when the total is unknown, and capped at 100 should the sampler
/// ever report more in use than installed.
pub open spec fn spec_mem_pct(total: u64, used: u64) -> int {
    if total == 0 {
        0
    } else if used <= total {
        (used * 100) / (total as int)
    } else {
        100
    }
}

/// Builds the snapshot record from raw sampler figures. The derived
/// percentage follows `spec_mem_pct` exactly.
pub fn snapshot_from(cpu_pct: u64, total: u64, used: u64) -> (r: ResourceSnapshot)
    ensures
        r.cpu_usage_pct == cpu_pct,
        r.memory_total_bytes == total,
        r.memory_used_bytes == used,
        r.memory_used_pct == spec_mem_pct(total, used),
        r.memory_used_pct <= 100,
{
    let pct: u64 = if total == 0 {
        0
    } else if used <= total {
        let wide: u128 = (used as u128) * 100 / (total as u128);
        proof {
            assert((used as int) * 100 / (total as int) <= 100) by (nonlinear_arith)
                requires
                    0 < total as int,
                    used as int <= total as int,
            ;
        }
        wide as u64
    } else {
        100
    };
    ResourceSnapshot {
        cpu_usage_pct: cpu_pct,
        memory_total_bytes: total,
        memory_used_bytes: used,
        memory_used_pct: pct,
    }
}

/// Samples host CPU and memory through the system sampler. Each query
/// re-reads the host; results are never cached.
pub struct ResourceMonitor {
    system: sysinfo::System,
}

impl ResourceMonitor {
    /// A monitor holding a freshly primed sampler.
    pub fn new() -> (r: ResourceMonitor)
    {
        ResourceMonitor { system: sampler_new() }
    }

    /// A fresh snapshot: re-reads the host, then derives the memory
    /// percentage from the raw figures by `spec_mem_pct`.
    pub fn get_stats(&mut self) -> (r: ResourceSnapshot)
        ensures
            r.memory_used_pct == spec_mem_pct(r.memory_total_bytes, r.memory_used_bytes),
            r.memory_used_pct <= 100,
    {
        sampler_refresh(&mut self.system);
        let cpu = sampler_cpu_pct(&self.system);
        let total = sampler_total_memory(&self.system);
        let used = sampler_used_memory(&self.system);
        snapshot_from(cpu, total, used)
    }
}

} // verus!
