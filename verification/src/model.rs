//! The data that the scheduler works on.

use crate::single::Single;
use vstd::prelude::*;

verus! {

/// A point in time: seconds since the Unix epoch, and nanoseconds.
#[derive(Clone, Copy, Debug, PartialEq, Eq, Structural)]
pub struct Timestamp {
    pub secs: i64,
    pub nanos: u32,
}

/// A double-precision number, held by its bits.
#[derive(Clone, Copy, Debug, PartialEq, Eq, Structural)]
pub struct Double {
    pub bits: u64,
}

pub open spec fn opt_text(o: Option<String>) -> Option<Seq<char>> {
    match o {
        Some(s) => Some(s@),
        None => None,
    }
}

pub fn clone_text(o: &Option<String>) -> (r: Option<String>)
    ensures
        opt_text(r) == opt_text(*o),
{
    match o {
        Some(s) => Some(s.clone()),
        None => None,
    }
}

/// What a simulation is asked to run: a chart, its size and its duration.
#[derive(Debug, PartialEq, Eq, Hash)]
pub struct SimulationParams {
    pub chart: String,
    pub node_count: u32,
    pub duration_secs: u32,
}

pub struct SimulationParamsView {
    pub chart: Seq<char>,
    pub node_count: u32,
    pub duration_secs: u32,
}

impl View for SimulationParams {
    type V = SimulationParamsView;

    open spec fn view(&self) -> SimulationParamsView {
        SimulationParamsView {
            chart: self.chart@,
            node_count: self.node_count,
            duration_secs: self.duration_secs,
        }
    }
}

impl Clone for SimulationParams {
    fn clone(&self) -> (r: Self)
        ensures
            r@ == self@,
    {
        SimulationParams {
            chart: self.chart.clone(),
            node_count: self.node_count,
            duration_secs: self.duration_secs,
        }
    }
}

/// What a simulation uses, and what that costs where it has been worked out.
#[derive(Clone, Copy, Debug, PartialEq, Eq, Structural)]
pub struct ResourceCost {
    pub cpu_cores: Single,
    pub memory_gb: Single,
    pub monetary_cost_eur: Option<Single>,
}

impl View for ResourceCost {
    type V = ResourceCost;

    open spec fn view(&self) -> ResourceCost {
        *self
    }
}

/// The load of the whole cluster.
#[derive(Clone, Copy, Debug, PartialEq, Eq, Structural)]
pub struct ClusterUtilization {
    pub cpu_percent: Single,
    pub memory_percent: Single,
    pub total_cpu_cores: Single,
    pub total_memory_gb: Single,
    pub used_cpu_cores: Single,
    pub used_memory_gb: Single,
}

/// The load of the namespace that the simulations run in.
#[derive(Clone, Copy, Debug, PartialEq, Eq, Structural)]
pub struct NamespaceUtilization {
    pub cpu_percent: Single,
    pub memory_percent: Single,
    pub allocated_cpu_cores: Single,
    pub allocated_memory_gb: Single,
    pub used_cpu_cores: Single,
    pub used_memory_gb: Single,
    pub cluster_total_cpu: Single,
    pub cluster_total_memory: Single,
}

/// Zero.
pub const ZERO: u32 = 0;

/// 1812 cores.
pub const CLUSTER_CPU_CORES: u32 = 0x44e2_8000;

/// 2978 gigabytes.
pub const CLUSTER_MEMORY_GB: u32 = 0x453a_2000;

/// 256 cores.
pub const NAMESPACE_CPU_CORES: u32 = 0x4380_0000;

/// 1024 gigabytes.
pub const NAMESPACE_MEMORY_GB: u32 = 0x4480_0000;

pub open spec fn zero() -> Single {
    Single { bits: ZERO }
}

pub open spec fn no_cost() -> ResourceCost {
    ResourceCost { cpu_cores: zero(), memory_gb: zero(), monetary_cost_eur: None }
}

pub open spec fn idle_cluster() -> ClusterUtilization {
    ClusterUtilization {
        cpu_percent: zero(),
        memory_percent: zero(),
        total_cpu_cores: (Single { bits: CLUSTER_CPU_CORES }),
        total_memory_gb: (Single { bits: CLUSTER_MEMORY_GB }),
        used_cpu_cores: zero(),
        used_memory_gb: zero(),
    }
}

pub open spec fn idle_namespace() -> NamespaceUtilization {
    NamespaceUtilization {
        cpu_percent: zero(),
        memory_percent: zero(),
        allocated_cpu_cores: (Single { bits: NAMESPACE_CPU_CORES }),
        allocated_memory_gb: (Single { bits: NAMESPACE_MEMORY_GB }),
        used_cpu_cores: zero(),
        used_memory_gb: zero(),
        cluster_total_cpu: zero(),
        cluster_total_memory: zero(),
    }
}

impl Default for ResourceCost {
    fn default() -> (r: Self)
        ensures
            r == no_cost(),
    {
        ResourceCost {
            cpu_cores: Single { bits: ZERO },
            memory_gb: Single { bits: ZERO },
            monetary_cost_eur: None,
        }
    }
}

impl Default for ClusterUtilization {
    fn default() -> (r: Self)
        ensures
            r == idle_cluster(),
    {
        let zero: Single = Single { bits: ZERO };
        ClusterUtilization {
            cpu_percent: zero,
            memory_percent: zero,
            total_cpu_cores: Single { bits: CLUSTER_CPU_CORES },
            total_memory_gb: Single { bits: CLUSTER_MEMORY_GB },
            used_cpu_cores: zero,
            used_memory_gb: zero,
        }
    }
}

impl Default for NamespaceUtilization {
    fn default() -> (r: Self)
        ensures
            r == idle_namespace(),
    {
        let zero: Single = Single { bits: ZERO };
        NamespaceUtilization {
            cpu_percent: zero,
            memory_percent: zero,
            allocated_cpu_cores: Single { bits: NAMESPACE_CPU_CORES },
            allocated_memory_gb: Single { bits: NAMESPACE_MEMORY_GB },
            used_cpu_cores: zero,
            used_memory_gb: zero,
            cluster_total_cpu: zero,
            cluster_total_memory: zero,
        }
    }
}

/// What the monitoring of the cluster reports.
#[derive(Clone, Debug)]
pub struct KubernetesMetrics {
    pub cluster_total_cpu: Single,
    pub cluster_used_cpu: Single,
    pub cluster_total_memory_gb: Single,
    pub cluster_used_memory_gb: Single,
    pub namespace: String,
    pub namespace_cpu_limits: Single,
    pub namespace_memory_limits_gb: Single,
    pub namespace_used_cpu: Single,
    pub namespace_used_memory_gb: Single,
}

/// The namespace that the simulations run in.
pub open spec fn namespace_name() -> Seq<char> {
    "larstesting"@
}

pub fn namespace() -> (r: &'static str)
    ensures
        r@ == namespace_name(),
{
    "larstesting"
}

impl Default for KubernetesMetrics {
    fn default() -> (r: Self)
        ensures
            r.cluster_total_cpu.bits == CLUSTER_CPU_CORES,
            r.cluster_used_cpu == zero(),
            r.cluster_total_memory_gb.bits == CLUSTER_MEMORY_GB,
            r.cluster_used_memory_gb == zero(),
            r.namespace@ == namespace_name(),
            r.namespace_cpu_limits.bits == NAMESPACE_CPU_CORES,
            r.namespace_memory_limits_gb.bits == NAMESPACE_MEMORY_GB,
            r.namespace_used_cpu == zero(),
            r.namespace_used_memory_gb == zero(),
    {
        let zero: Single = Single { bits: ZERO };
        KubernetesMetrics {
            cluster_total_cpu: Single { bits: CLUSTER_CPU_CORES },
            cluster_used_cpu: zero,
            cluster_total_memory_gb: Single { bits: CLUSTER_MEMORY_GB },
            cluster_used_memory_gb: zero,
            namespace: namespace().to_owned(),
            namespace_cpu_limits: Single { bits: NAMESPACE_CPU_CORES },
            namespace_memory_limits_gb: Single { bits: NAMESPACE_MEMORY_GB },
            namespace_used_cpu: zero,
            namespace_used_memory_gb: zero,
        }
    }
}

/// The parameters that a deployment takes over unchanged from the request.
pub struct WorkloadView {
    pub docker_image: Seq<char>,
    pub pubsub_topic: Seq<char>,
    pub publisher_enabled: bool,
    pub publisher_message_size: u32,
    pub publisher_delay: u32,
    pub publisher_message_count: u32,
    pub artificial_latency: bool,
    pub latency_ms: u32,
    pub nodes_command: Option<Seq<char>>,
    pub bootstrap_command: Option<Seq<char>>,
    pub peer_number: Option<u32>,
    pub number_of_peers: Option<u32>,
    pub peers_to_connect: Option<u32>,
    pub message_rate: Option<u32>,
    pub message_size: Option<u32>,
}

/// A simulation that waits for admission.
#[derive(Debug)]
pub struct QueuedSimulation {
    pub request_id: u128,
    pub params: SimulationParams,
    pub predicted_cost: ResourceCost,
    pub issue_number: Option<u64>,
    pub docker_image: String,
    pub pubsub_topic: String,
    pub bootstrap_nodes: Option<u32>,
    pub publisher_enabled: bool,
    pub publisher_message_size: u32,
    pub publisher_delay: u32,
    pub publisher_message_count: u32,
    pub artificial_latency: bool,
    pub latency_ms: u32,
    pub nodes_command: Option<String>,
    pub bootstrap_command: Option<String>,
    pub peer_number: Option<u32>,
    pub number_of_peers: Option<u32>,
    pub peers_to_connect: Option<u32>,
    pub message_rate: Option<u32>,
    pub message_size: Option<u32>,
    pub parallel_limit: u32,
}

pub struct QueuedView {
    pub request_id: u128,
    pub params: SimulationParamsView,
    pub predicted_cost: ResourceCost,
    pub issue_number: Option<u64>,
    pub bootstrap_nodes: Option<u32>,
    pub workload: WorkloadView,
    pub parallel_limit: u32,
}

impl View for QueuedSimulation {
    type V = QueuedView;

    open spec fn view(&self) -> QueuedView {
        QueuedView {
            request_id: self.request_id,
            params: self.params@,
            predicted_cost: self.predicted_cost,
            issue_number: self.issue_number,
            bootstrap_nodes: self.bootstrap_nodes,
            workload: WorkloadView {
                docker_image: self.docker_image@,
                pubsub_topic: self.pubsub_topic@,
                publisher_enabled: self.publisher_enabled,
                publisher_message_size: self.publisher_message_size,
                publisher_delay: self.publisher_delay,
                publisher_message_count: self.publisher_message_count,
                artificial_latency: self.artificial_latency,
                latency_ms: self.latency_ms,
                nodes_command: opt_text(self.nodes_command),
                bootstrap_command: opt_text(self.bootstrap_command),
                peer_number: self.peer_number,
                number_of_peers: self.number_of_peers,
                peers_to_connect: self.peers_to_connect,
                message_rate: self.message_rate,
                message_size: self.message_size,
            },
            parallel_limit: self.parallel_limit,
        }
    }
}

impl Clone for QueuedSimulation {
    fn clone(&self) -> (r: Self)
        ensures
            r@ == self@,
    {
        QueuedSimulation {
            request_id: self.request_id,
            params: self.params.clone(),
            predicted_cost: self.predicted_cost,
            issue_number: self.issue_number,
            bootstrap_nodes: self.bootstrap_nodes,
            docker_image: self.docker_image.clone(),
            pubsub_topic: self.pubsub_topic.clone(),
            publisher_enabled: self.publisher_enabled,
            publisher_message_size: self.publisher_message_size,
            publisher_delay: self.publisher_delay,
            publisher_message_count: self.publisher_message_count,
            artificial_latency: self.artificial_latency,
            latency_ms: self.latency_ms,
            nodes_command: clone_text(&self.nodes_command),
            bootstrap_command: clone_text(&self.bootstrap_command),
            peer_number: self.peer_number,
            number_of_peers: self.number_of_peers,
            peers_to_connect: self.peers_to_connect,
            message_rate: self.message_rate,
            message_size: self.message_size,
            parallel_limit: self.parallel_limit,
        }
    }
}

/// What a simulation used at one moment.
#[derive(Clone, Copy, Debug, PartialEq, Eq, Structural)]
pub struct ResourceSnapshot {
    pub timestamp: Timestamp,
    pub cpu_cores: Single,
    pub memory_gb: Single,
}

/// A simulation that has been admitted.
#[derive(Debug)]
pub struct ActiveSimulation {
    pub simulation_id: u128,
    pub request_id: u128,
    pub params: SimulationParams,
    pub predicted_cost: ResourceCost,
    pub actual_cost: ResourceCost,
    pub usage_snapshots: Vec<ResourceSnapshot>,
    pub last_snapshot_time: Timestamp,
    pub monetary_cost_eur_predicted: Option<Single>,
    pub monetary_cost_eur_actual: Option<Single>,
    pub release_name: String,
    pub issue_number: Option<u64>,
    pub status: String,
    pub start_time: Option<Timestamp>,
    pub end_time: Option<Timestamp>,
    pub docker_image: String,
    pub pubsub_topic: String,
    pub bootstrap_nodes: u32,
    pub publisher_enabled: bool,
    pub publisher_message_size: u32,
    pub publisher_delay: u32,
    pub publisher_message_count: u32,
    pub artificial_latency: bool,
    pub latency_ms: u32,
    pub nodes_command: Option<String>,
    pub bootstrap_command: Option<String>,
    pub peer_number: Option<u32>,
    pub number_of_peers: Option<u32>,
    pub peers_to_connect: Option<u32>,
    pub message_rate: Option<u32>,
    pub message_size: Option<u32>,
}

pub struct ActiveView {
    pub simulation_id: u128,
    pub request_id: u128,
    pub params: SimulationParamsView,
    pub predicted_cost: ResourceCost,
    pub actual_cost: ResourceCost,
    pub usage_snapshots: Seq<ResourceSnapshot>,
    pub last_snapshot_time: Timestamp,
    pub monetary_cost_eur_predicted: Option<Single>,
    pub monetary_cost_eur_actual: Option<Single>,
    pub release_name: Seq<char>,
    pub issue_number: Option<u64>,
    pub status: Seq<char>,
    pub start_time: Option<Timestamp>,
    pub end_time: Option<Timestamp>,
    pub bootstrap_nodes: u32,
    pub workload: WorkloadView,
}

impl View for ActiveSimulation {
    type V = ActiveView;

    open spec fn view(&self) -> ActiveView {
        ActiveView {
            simulation_id: self.simulation_id,
            request_id: self.request_id,
            params: self.params@,
            predicted_cost: self.predicted_cost,
            actual_cost: self.actual_cost,
            usage_snapshots: self.usage_snapshots@,
            last_snapshot_time: self.last_snapshot_time,
            monetary_cost_eur_predicted: self.monetary_cost_eur_predicted,
            monetary_cost_eur_actual: self.monetary_cost_eur_actual,
            release_name: self.release_name@,
            issue_number: self.issue_number,
            status: self.status@,
            start_time: self.start_time,
            end_time: self.end_time,
            bootstrap_nodes: self.bootstrap_nodes,
            workload: WorkloadView {
                docker_image: self.docker_image@,
                pubsub_topic: self.pubsub_topic@,
                publisher_enabled: self.publisher_enabled,
                publisher_message_size: self.publisher_message_size,
                publisher_delay: self.publisher_delay,
                publisher_message_count: self.publisher_message_count,
                artificial_latency: self.artificial_latency,
                latency_ms: self.latency_ms,
                nodes_command: opt_text(self.nodes_command),
                bootstrap_command: opt_text(self.bootstrap_command),
                peer_number: self.peer_number,
                number_of_peers: self.number_of_peers,
                peers_to_connect: self.peers_to_connect,
                message_rate: self.message_rate,
                message_size: self.message_size,
            },
        }
    }
}

/// A copy of a list of snapshots.
fn clone_snapshots(v: &Vec<ResourceSnapshot>) -> (r: Vec<ResourceSnapshot>)
    ensures
        r@ == v@,
{
    let mut r: Vec<ResourceSnapshot> = Vec::new();
    for i in 0..v.len()
        invariant
            r@ == v@.take(i as int),
    {
        r.push(v[i]);
        assert(v@.take(i + 1) == v@.take(i as int).push(v@[i as int]));
    }
    assert(v@.take(v.len() as int) == v@);
    r
}

impl Clone for ActiveSimulation {
    fn clone(&self) -> (r: Self)
        ensures
            r@ == self@,
    {
        ActiveSimulation {
            simulation_id: self.simulation_id,
            request_id: self.request_id,
            params: self.params.clone(),
            predicted_cost: self.predicted_cost,
            actual_cost: self.actual_cost,
            usage_snapshots: clone_snapshots(&self.usage_snapshots),
            last_snapshot_time: self.last_snapshot_time,
            monetary_cost_eur_predicted: self.monetary_cost_eur_predicted,
            monetary_cost_eur_actual: self.monetary_cost_eur_actual,
            release_name: self.release_name.clone(),
            issue_number: self.issue_number,
            status: self.status.clone(),
            start_time: self.start_time,
            end_time: self.end_time,
            bootstrap_nodes: self.bootstrap_nodes,
            docker_image: self.docker_image.clone(),
            pubsub_topic: self.pubsub_topic.clone(),
            publisher_enabled: self.publisher_enabled,
            publisher_message_size: self.publisher_message_size,
            publisher_delay: self.publisher_delay,
            publisher_message_count: self.publisher_message_count,
            artificial_latency: self.artificial_latency,
            latency_ms: self.latency_ms,
            nodes_command: clone_text(&self.nodes_command),
            bootstrap_command: clone_text(&self.bootstrap_command),
            peer_number: self.peer_number,
            number_of_peers: self.number_of_peers,
            peers_to_connect: self.peers_to_connect,
            message_rate: self.message_rate,
            message_size: self.message_size,
        }
    }
}

/// The simulation that finished last.
#[derive(Debug)]
pub struct LastFinishedSimulation {
    pub simulation_id: u128,
    pub params: SimulationParams,
    pub predicted_cost: ResourceCost,
    pub actual_cost: ResourceCost,
    pub finished_at: Timestamp,
    pub duration_secs: u32,
}

pub struct FinishedView {
    pub simulation_id: u128,
    pub params: SimulationParamsView,
    pub predicted_cost: ResourceCost,
    pub actual_cost: ResourceCost,
    pub finished_at: Timestamp,
    pub duration_secs: u32,
}

impl View for LastFinishedSimulation {
    type V = FinishedView;

    open spec fn view(&self) -> FinishedView {
        FinishedView {
            simulation_id: self.simulation_id,
            params: self.params@,
            predicted_cost: self.predicted_cost,
            actual_cost: self.actual_cost,
            finished_at: self.finished_at,
            duration_secs: self.duration_secs,
        }
    }
}

impl Clone for LastFinishedSimulation {
    fn clone(&self) -> (r: Self)
        ensures
            r@ == self@,
    {
        LastFinishedSimulation {
            simulation_id: self.simulation_id,
            params: self.params.clone(),
            predicted_cost: self.predicted_cost,
            actual_cost: self.actual_cost,
            finished_at: self.finished_at,
            duration_secs: self.duration_secs,
        }
    }
}

/// One observed cost, as the cost history keeps it.
#[derive(Clone, Debug)]
pub struct CostHistoryEntry {
    pub chart: String,
    pub node_count: u32,
    pub duration_secs: u32,
    pub cpu_cores: Single,
    pub memory_gb: Single,
    pub observed_at: Timestamp,
}

/// A request for permission to run a simulation.
#[derive(Clone, Debug)]
pub struct RequestRunPayload {
    pub chart: String,
    pub node_count: u32,
    pub duration_secs: u32,
}

/// The answer to such a request: `ACCEPTED` with an identifier, or `REJECTED` with a reason.
#[derive(Clone, Debug)]
pub struct RequestRunResponse {
    pub status: String,
    pub simulation_id: Option<u128>,
    pub reason: Option<String>,
}

/// The report that a permitted simulation has been started.
#[derive(Clone, Debug)]
pub struct ReportStartPayload {
    pub simulation_id: u128,
    pub chart: String,
    pub node_count: u32,
    pub duration_secs: u32,
    pub release_name: String,
}

/// The report that a simulation has ended, with the costs where the runner knows them.
#[derive(Clone, Copy, Debug)]
pub struct ReportCompletePayload {
    pub simulation_id: u128,
    pub final_cpu_cores: Option<Single>,
    pub final_memory_gb: Option<Single>,
}

/// A request for made-up simulations.
#[derive(Debug)]
pub struct MockSubmitRequest {
    pub count: u32,
    pub base_nodes: u32,
}

/// One run, as the run history keeps it.
#[derive(Clone, Debug)]
pub struct SimulationRunHistoryEntry {
    pub simulation_id: String,
    pub request_id: String,
    pub issue_number: Option<i64>,
    pub status: String,
    pub chart: String,
    pub node_count: i64,
    pub duration_secs: i64,
    pub start_time: Option<Timestamp>,
    pub end_time: Timestamp,
    pub release_name: String,
    pub predicted_cpu_cores: Double,
    pub predicted_memory_gb: Double,
    pub actual_cpu_cores: Option<Double>,
    pub actual_memory_gb: Option<Double>,
    pub results_url: Option<String>,
    pub config_details: String,
}

} // verus!
