//! Whether the cluster can take one more simulation.

use crate::exact::{at_most_percent, comparable, compare_exactly, sum_of};
use crate::model::{ClusterUtilization, ResourceCost};
use crate::single::Single;
use crate::text::{one_decimal, one_decimal_text};
use vstd::prelude::*;

verus! {

/// 100.
pub const HUNDRED: u32 = 0x42c8_0000;

/// 30 percent of the cores, for simulations that are run by others.
pub const REQUEST_CPU_LIMIT: u32 = 0x41f0_0000;

/// 80 percent of the cores, for queued simulations.
pub const QUEUE_CPU_LIMIT: u32 = 0x42a0_0000;

/// 85 percent of the memory.
pub const MEMORY_LIMIT: u32 = 0x42aa_0000;

/// How much of the cluster may be in use, in percent.
#[derive(Clone, Copy, Debug, PartialEq, Eq, Structural)]
pub struct Limits {
    pub cpu_percent: Single,
    pub memory_percent: Single,
}

/// How much of the cluster would be in use, in percent.
#[derive(Clone, Copy, Debug, PartialEq, Eq, Structural)]
pub struct Projection {
    pub cpu_percent: Single,
    pub memory_percent: Single,
}

/// The limits for simulations that are run by others.
pub open spec fn default_request_limits() -> Limits {
    Limits {
        cpu_percent: (Single { bits: REQUEST_CPU_LIMIT }),
        memory_percent: (Single { bits: MEMORY_LIMIT }),
    }
}

/// The limits for queued simulations.
pub open spec fn default_queue_limits() -> Limits {
    Limits {
        cpu_percent: (Single { bits: QUEUE_CPU_LIMIT }),
        memory_percent: (Single { bits: MEMORY_LIMIT }),
    }
}

pub fn request_limits() -> (r: Limits)
    ensures
        r == default_request_limits(),
{
    Limits {
        cpu_percent: Single { bits: REQUEST_CPU_LIMIT },
        memory_percent: Single { bits: MEMORY_LIMIT },
    }
}

pub fn queue_limits() -> (r: Limits)
    ensures
        r == default_queue_limits(),
{
    Limits {
        cpu_percent: Single { bits: QUEUE_CPU_LIMIT },
        memory_percent: Single { bits: MEMORY_LIMIT },
    }
}

/// A part of a total, in percent.
pub open spec fn percent(part: Single, total: Single) -> Single {
    part.quotient(total).product(Single { bits: HUNDRED })
}

/// The use of the cluster once a cost is added to what is in use.
pub open spec fn with_cost(cluster: ClusterUtilization, cost: ResourceCost) -> Projection {
    Projection {
        cpu_percent: percent(cluster.used_cpu_cores.sum(cost.cpu_cores), cluster.total_cpu_cores),
        memory_percent: percent(
            cluster.used_memory_gb.sum(cost.memory_gb),
            cluster.total_memory_gb,
        ),
    }
}

pub fn project(cluster: &ClusterUtilization, cost: &ResourceCost) -> (r: Projection)
    ensures
        r == with_cost(*cluster, *cost),
{
    let hundred: Single = Single { bits: HUNDRED };
    let cpu: Single = cluster.used_cpu_cores.plus(cost.cpu_cores);
    let memory: Single = cluster.used_memory_gb.plus(cost.memory_gb);
    Projection {
        cpu_percent: cpu.over(cluster.total_cpu_cores).times(hundred),
        memory_percent: memory.over(cluster.total_memory_gb).times(hundred),
    }
}

impl Projection {
    /// Whether both shares stay within the limits.
    pub open spec fn within(self, limits: Limits) -> bool {
        self.cpu_percent.le(limits.cpu_percent) && self.memory_percent.le(limits.memory_percent)
    }

    /// Which limits would be exceeded, given which are kept.
    pub open spec fn reasons(self, limits: Limits, cpu_ok: bool, memory_ok: bool) -> Option<
        Seq<char>,
    > {
        let cpu = exceeded("CPU"@, limits.cpu_percent, self.cpu_percent);
        let memory = exceeded("Memory"@, limits.memory_percent, self.memory_percent);
        if cpu_ok && memory_ok {
            None
        } else if memory_ok {
            Some(cpu)
        } else if cpu_ok {
            Some(memory)
        } else {
            Some(cpu + ", "@ + memory)
        }
    }

    /// Which limits would be exceeded.
    pub open spec fn excess(self, limits: Limits) -> Option<Seq<char>> {
        self.reasons(
            limits,
            self.cpu_percent.le(limits.cpu_percent),
            self.memory_percent.le(limits.memory_percent),
        )
    }
}

/// Whether the parts of a load are together at most so many percent of a total: without
/// rounding where that can be said, and else as the rounded share says.
pub open spec fn within_target(
    parts: Seq<Single>,
    total: Single,
    limit: Single,
    share: Single,
) -> bool {
    if comparable(parts, total, limit) {
        at_most_percent(sum_of(parts), total, limit)
    } else {
        share.le(limit)
    }
}

pub fn keeps_target(parts: &Vec<Single>, total: Single, limit: Single, share: Single) -> (r: bool)
    ensures
        r == within_target(parts@, total, limit, share),
{
    match compare_exactly(parts, total, limit) {
        Some(r) => r,
        None => share.at_most(limit),
    }
}

/// The reason that one limit gives for a refusal.
pub open spec fn exceeded(resource: Seq<char>, limit: Single, share: Single) -> Seq<char> {
    resource + " limit ("@ + one_decimal(limit) + "%) would be exceeded ("@ + one_decimal(share)
        + "%)"@
}

fn exceeded_text(resource: &str, limit: Single, share: Single) -> (r: String)
    ensures
        r@ == exceeded(resource@, limit, share),
{
    let mut r: String = resource.to_owned();
    r.append(" limit (");
    r.append(one_decimal_text(limit).as_str());
    r.append("%) would be exceeded (");
    r.append(one_decimal_text(share).as_str());
    r.append("%)");
    r
}

/// The reason for a refusal, given which limits are kept.
pub fn explain(projection: &Projection, limits: &Limits, cpu_ok: bool, memory_ok: bool) -> (r:
    Option<String>)
    ensures
        crate::model::opt_text(r) == projection.reasons(*limits, cpu_ok, memory_ok),
        r is None <==> cpu_ok && memory_ok,
{
    if cpu_ok && memory_ok {
        return None;
    }
    let mut reason: String = String::new();
    if !cpu_ok {
        reason = exceeded_text("CPU", limits.cpu_percent, projection.cpu_percent);
        if !memory_ok {
            reason.append(", ");
            reason.append(
                exceeded_text("Memory", limits.memory_percent, projection.memory_percent).as_str(),
            );
        }
    } else {
        reason = exceeded_text("Memory", limits.memory_percent, projection.memory_percent);
    }
    Some(reason)
}

/// The reason for a refusal, or nothing where the projection stays within the limits.
pub fn refusal(projection: &Projection, limits: &Limits) -> (r: Option<String>)
    ensures
        crate::model::opt_text(r) == projection.excess(*limits),
        r is None <==> projection.within(*limits),
{
    explain(
        projection,
        limits,
        projection.cpu_percent.at_most(limits.cpu_percent),
        projection.memory_percent.at_most(limits.memory_percent),
    )
}

} // verus!
