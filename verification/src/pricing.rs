//! What simulations cost: the price of a cost, and the cost that is to be expected of a
//! simulation from the history of earlier ones.

use crate::model::{ResourceCost, SimulationParams, SimulationParamsView};
use crate::single::Single;
use crate::text::same;
use vstd::prelude::*;

verus! {

/// 0.01 euro for a core and an hour.
pub const COST_PER_CPU_CORE_HOUR: u32 = 0x3c23_d70a;

/// 0.005 euro for a gigabyte and an hour.
pub const COST_PER_MEMORY_GB_HOUR: u32 = 0x3ba3_d70a;

/// 3600 seconds.
pub const SECONDS_PER_HOUR: u32 = 0x4561_0000;

/// 0.1 cores for a node of the chart `waku`.
pub const WAKU_CPU_PER_NODE: u32 = 0x3dcc_cccd;

/// 0.05 gigabytes for a node of the chart `waku`.
pub const WAKU_MEMORY_PER_NODE: u32 = 0x3d4c_cccd;

/// 0.08 cores for a node of any other chart.
pub const OTHER_CPU_PER_NODE: u32 = 0x3da3_d70a;

/// 0.04 gigabytes for a node of any other chart.
pub const OTHER_MEMORY_PER_NODE: u32 = 0x3d23_d70a;

/// One.
pub const ONE: u32 = 0x3f80_0000;

/// One half: the least ratio of an observed cost to an estimated one that is believed.
pub const MIN_RATIO: u32 = 0x3f00_0000;

/// Two: the greatest such ratio.
pub const MAX_RATIO: u32 = 0x4000_0000;

/// So many seconds in hours.
pub open spec fn hours(duration_secs: u32) -> Single {
    Single::of_int(duration_secs as int).quotient(Single { bits: SECONDS_PER_HOUR })
}

/// The price in euro of using the given resources for so many seconds.
pub open spec fn monetary_cost(cost: ResourceCost, duration_secs: u32) -> Single {
    let time = hours(duration_secs);
    let cpu = cost.cpu_cores.product(Single { bits: COST_PER_CPU_CORE_HOUR }).product(time);
    let memory = cost.memory_gb.product(Single { bits: COST_PER_MEMORY_GB_HOUR }).product(time);
    cpu.sum(memory)
}

pub fn calculate_monetary_cost(cost: &ResourceCost, duration_secs: u32) -> (r: Single)
    ensures
        r == monetary_cost(*cost, duration_secs),
{
    let time: Single = Single::from_u32(duration_secs).over(Single { bits: SECONDS_PER_HOUR });
    let cpu: Single = cost.cpu_cores.times(Single { bits: COST_PER_CPU_CORE_HOUR }).times(time);
    let memory: Single = cost.memory_gb.times(Single { bits: COST_PER_MEMORY_GB_HOUR }).times(time);
    cpu.plus(memory)
}

/// The cost with its price filled in.
pub open spec fn priced(cost: ResourceCost, duration_secs: u32) -> ResourceCost {
    ResourceCost { monetary_cost_eur: Some(monetary_cost(cost, duration_secs)), ..cost }
}

pub fn with_price(cost: &ResourceCost, duration_secs: u32) -> (r: ResourceCost)
    ensures
        r == priced(*cost, duration_secs),
{
    ResourceCost {
        cpu_cores: cost.cpu_cores,
        memory_gb: cost.memory_gb,
        monetary_cost_eur: Some(calculate_monetary_cost(cost, duration_secs)),
    }
}

/// The cost of so many nodes at so much for each.
pub open spec fn per_node(node_count: u32, cpu: Single, memory: Single) -> ResourceCost {
    let nodes = Single::of_int(node_count as int);
    ResourceCost {
        cpu_cores: nodes.product(cpu),
        memory_gb: nodes.product(memory),
        monetary_cost_eur: None,
    }
}

pub fn cost_per_node(node_count: u32, cpu: Single, memory: Single) -> (r: ResourceCost)
    ensures
        r == per_node(node_count, cpu, memory),
{
    let nodes: Single = Single::from_u32(node_count);
    ResourceCost {
        cpu_cores: nodes.times(cpu),
        memory_gb: nodes.times(memory),
        monetary_cost_eur: None,
    }
}

/// The cost that is expected of a chart without history.
pub open spec fn default_cost(params: SimulationParamsView) -> ResourceCost {
    if params.chart == "waku"@ {
        per_node(
            params.node_count,
            Single { bits: WAKU_CPU_PER_NODE },
            Single { bits: WAKU_MEMORY_PER_NODE },
        )
    } else {
        per_node(
            params.node_count,
            Single { bits: OTHER_CPU_PER_NODE },
            Single { bits: OTHER_MEMORY_PER_NODE },
        )
    }
}

pub fn cost_by_default(params: &SimulationParams) -> (r: ResourceCost)
    ensures
        r == default_cost(params@),
{
    if same(params.chart.as_str(), "waku") {
        cost_per_node(
            params.node_count,
            Single { bits: WAKU_CPU_PER_NODE },
            Single { bits: WAKU_MEMORY_PER_NODE },
        )
    } else {
        cost_per_node(
            params.node_count,
            Single { bits: OTHER_CPU_PER_NODE },
            Single { bits: OTHER_MEMORY_PER_NODE },
        )
    }
}

/// The cost that is expected of a simulation that is run again.
pub fn predict_cost(params: &SimulationParams) -> (r: Result<ResourceCost, String>)
    ensures
        r == Ok::<ResourceCost, String>(default_cost(params@)),
{
    Ok(cost_by_default(params))
}

/// What the cost history holds for a chart: the entry with the requested node count (`em_*`),
/// and those with the closest lower (`cl_*`) and higher (`ch_*`) one.
#[derive(Clone, Copy, Debug, PartialEq, Eq, Structural)]
pub struct HistoryRow {
    pub em_cpu: Option<Single>,
    pub em_mem: Option<Single>,
    pub em_nodes: Option<i64>,
    pub cl_cpu: Option<Single>,
    pub cl_mem: Option<Single>,
    pub cl_nodes: Option<i64>,
    pub ch_cpu: Option<Single>,
    pub ch_mem: Option<Single>,
    pub ch_nodes: Option<i64>,
}

/// The history entry that a prediction rests on.
#[derive(Clone, Copy, Debug, PartialEq, Eq, Structural)]
pub enum Basis {
    Exact,
    Lower,
    Higher,
    Default,
}

/// The distance between two node counts.
pub open spec fn distance(a: int, b: int) -> int {
    if a < b {
        b - a
    } else {
        a - b
    }
}

impl HistoryRow {
    /// The entry with the requested node count where there is one, else the closer
    /// neighbour, the lower one where both are equally close.
    pub open spec fn basis(self, node_count: u32) -> Basis {
        if self.em_cpu is Some && self.em_mem is Some {
            Basis::Exact
        } else {
            match (self.cl_nodes, self.ch_nodes) {
                (Some(low), Some(high)) => if distance(node_count as int, low as int) <= distance(
                    node_count as int,
                    high as int,
                ) {
                    Basis::Lower
                } else {
                    Basis::Higher
                },
                (Some(low), None) => Basis::Lower,
                (None, Some(high)) => Basis::Higher,
                (None, None) => Basis::Default,
            }
        }
    }

    /// Whether the entry that a prediction would rest on is complete.
    pub open spec fn usable(self, node_count: u32) -> bool {
        match self.basis(node_count) {
            Basis::Lower => self.cl_cpu is Some && self.cl_mem is Some,
            Basis::Higher => self.ch_cpu is Some && self.ch_mem is Some,
            _ => true,
        }
    }

    pub fn choose_basis(&self, node_count: u32) -> (r: Basis)
        ensures
            r == self.basis(node_count),
    {
        if self.em_cpu.is_some() && self.em_mem.is_some() {
            return Basis::Exact;
        }
        match (self.cl_nodes, self.ch_nodes) {
            (Some(low), Some(high)) => {
                let n: i128 = node_count as i128;
                let down: i128 = if n < low as i128 {
                    low as i128 - n
                } else {
                    n - low as i128
                };
                let up: i128 = if n < high as i128 {
                    high as i128 - n
                } else {
                    n - high as i128
                };
                if down <= up {
                    Basis::Lower
                } else {
                    Basis::Higher
                }
            },
            (Some(_), None) => Basis::Lower,
            (None, Some(_)) => Basis::Higher,
            (None, None) => Basis::Default,
        }
    }

    pub fn is_usable(&self, node_count: u32) -> (r: bool)
        ensures
            r == self.usable(node_count),
    {
        match self.choose_basis(node_count) {
            Basis::Lower => self.cl_cpu.is_some() && self.cl_mem.is_some(),
            Basis::Higher => self.ch_cpu.is_some() && self.ch_mem.is_some(),
            _ => true,
        }
    }
}

/// An observed cost scaled linearly from the node count it was observed at to another one.
pub open spec fn scaled(cpu: Single, memory: Single, from: i64, to: u32) -> ResourceCost {
    let factor = Single::of_int(to as int).quotient(Single::of_int(from as int));
    ResourceCost {
        cpu_cores: cpu.product(factor),
        memory_gb: memory.product(factor),
        monetary_cost_eur: None,
    }
}

pub fn scale_cost(cpu: Single, memory: Single, from: i64, to: u32) -> (r: ResourceCost)
    ensures
        r == scaled(cpu, memory, from, to),
{
    let factor: Single = Single::from_u32(to).over(Single::from_i64(from));
    ResourceCost {
        cpu_cores: cpu.times(factor),
        memory_gb: memory.times(factor),
        monetary_cost_eur: None,
    }
}

/// What a query of the cost history gave: a row, nothing, or a failure.
pub type HistoryLookup = Result<Option<HistoryRow>, String>;

/// Whether a prediction can be made from the lookup.
pub open spec fn lookup_usable(lookup: HistoryLookup, node_count: u32) -> bool {
    match lookup {
        Ok(Some(row)) => row.usable(node_count),
        _ => true,
    }
}

/// The cost that is expected of a simulation, given what the history holds.
pub open spec fn predicted_cost(
    params: SimulationParamsView,
    lookup: HistoryLookup,
) -> ResourceCost {
    match lookup {
        Ok(Some(row)) => match row.basis(params.node_count) {
            Basis::Exact => ResourceCost {
                cpu_cores: row.em_cpu->0,
                memory_gb: row.em_mem->0,
                monetary_cost_eur: None,
            },
            Basis::Lower => scaled(
                row.cl_cpu->0,
                row.cl_mem->0,
                row.cl_nodes->0,
                params.node_count,
            ),
            Basis::Higher => scaled(
                row.ch_cpu->0,
                row.ch_mem->0,
                row.ch_nodes->0,
                params.node_count,
            ),
            Basis::Default => default_cost(params),
        },
        _ => default_cost(params),
    }
}

pub fn predict_from_history(params: &SimulationParams, lookup: &HistoryLookup) -> (r: ResourceCost)
    requires
        lookup_usable(*lookup, params.node_count),
    ensures
        r == predicted_cost(params@, *lookup),
{
    match lookup {
        Ok(Some(row)) => match row.choose_basis(params.node_count) {
            Basis::Exact => ResourceCost {
                cpu_cores: row.em_cpu.unwrap(),
                memory_gb: row.em_mem.unwrap(),
                monetary_cost_eur: None,
            },
            Basis::Lower => scale_cost(
                row.cl_cpu.unwrap(),
                row.cl_mem.unwrap(),
                row.cl_nodes.unwrap(),
                params.node_count,
            ),
            Basis::Higher => scale_cost(
                row.ch_cpu.unwrap(),
                row.ch_mem.unwrap(),
                row.ch_nodes.unwrap(),
                params.node_count,
            ),
            Basis::Default => cost_by_default(params),
        },
        _ => cost_by_default(params),
    }
}

/// Whether a prediction can be made from the lookup.
pub fn can_predict(lookup: &HistoryLookup, node_count: u32) -> (r: bool)
    ensures
        r == lookup_usable(*lookup, node_count),
{
    match lookup {
        Ok(Some(row)) => row.is_usable(node_count),
        _ => true,
    }
}

/// The ratio of an observed amount to an estimated one; one where nothing was estimated.
pub open spec fn believed_ratio(observed: Single, estimated: Single) -> Single {
    if (Single { bits: 0 }).lt(estimated) {
        observed.quotient(estimated)
    } else {
        Single { bits: ONE }
    }
}

/// Whether a ratio lies between one half and two.
pub open spec fn plausible(ratio: Single) -> bool {
    (Single { bits: MIN_RATIO }).le(ratio) && ratio.le(Single { bits: MAX_RATIO })
}

/// An observed cost where it is within a factor of two of the estimate, else the estimate.
pub open spec fn checked_cost(
    estimate: ResourceCost,
    observed: Result<Option<ResourceCost>, String>,
) -> ResourceCost {
    match observed {
        Ok(Some(cost)) => if plausible(believed_ratio(cost.cpu_cores, estimate.cpu_cores))
            && plausible(believed_ratio(cost.memory_gb, estimate.memory_gb)) {
            ResourceCost { monetary_cost_eur: None, ..cost }
        } else {
            estimate
        },
        _ => estimate,
    }
}

fn ratio(observed: Single, estimated: Single) -> (r: Single)
    ensures
        r == believed_ratio(observed, estimated),
{
    let zero: Single = Single { bits: 0 };
    if zero.below(estimated) {
        observed.over(estimated)
    } else {
        Single { bits: ONE }
    }
}

fn is_plausible(ratio: Single) -> (r: bool)
    ensures
        r == plausible(ratio),
{
    let low: Single = Single { bits: MIN_RATIO };
    low.at_most(ratio) && ratio.at_most(Single { bits: MAX_RATIO })
}

pub fn check_observed(
    estimate: ResourceCost,
    observed: &Result<Option<ResourceCost>, String>,
) -> (r: ResourceCost)
    ensures
        r == checked_cost(estimate, *observed),
{
    match observed {
        Ok(Some(cost)) => {
            if is_plausible(ratio(cost.cpu_cores, estimate.cpu_cores)) && is_plausible(
                ratio(cost.memory_gb, estimate.memory_gb),
            ) {
                ResourceCost {
                    cpu_cores: cost.cpu_cores,
                    memory_gb: cost.memory_gb,
                    monetary_cost_eur: None,
                }
            } else {
                estimate
            }
        },
        _ => estimate,
    }
}

} // verus!
