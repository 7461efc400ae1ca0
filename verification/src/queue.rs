//! The queue: what is put into it, and what leaves it to run.

use crate::admission::{project, refusal, with_cost};
use crate::events::{
    events_view, price_queue, price_queued, priced_queue, priced_queued, queue_view, AppEvent,
    EventView,
};
use crate::laws::admission_keeps_well_formed;
use crate::model::{
    no_cost, ActiveSimulation, ActiveView, MockSubmitRequest, QueuedSimulation, QueuedView,
    ResourceCost, SimulationParams, SimulationParamsView, Timestamp,
};
use crate::outside::{draw, hyphenated, parse_uuid, seeded_rng, uuid_number, uuid_text};
use crate::pages::{Reply, ReplyView};
use crate::precision::share;
use crate::pricing::{
    calculate_monetary_cost, check_observed, checked_cost, cost_per_node, default_cost,
    monetary_cost, per_node, predict_cost, ONE,
};
use crate::registry::put;
use crate::requests::no_workload;
use crate::single::Single;
use crate::state::{Scheduler, SchedulerView};
use crate::text::{append_decimal, decimal, decimal_text, same};
use vstd::prelude::*;

verus! {

/// 0.18 cores.
pub const MOCK_CPU_PER_NODE: u32 = 0x3e38_51ec;

/// 0.04 cores.
pub const MOCK_CPU_SPREAD: u32 = 0x3d23_d70a;

/// 0.02 cores.
pub const MOCK_CPU_SHIFT: u32 = 0x3ca3_d70a;

/// 0.05 gigabytes.
pub const MOCK_MEMORY_PER_NODE: u32 = 0x3d4c_cccd;

/// 0.02 gigabytes.
pub const MOCK_MEMORY_SPREAD: u32 = 0x3ca3_d70a;

/// 0.01 gigabytes.
pub const MOCK_MEMORY_SHIFT: u32 = 0x3c23_d70a;

/// 1000.
pub const THOUSAND: u32 = 0x447a_0000;

/// Why made-up simulations are not made, if so.
pub open spec fn mock_answer(count: u32, queue_locked: bool) -> Option<ReplyView> {
    if count == 0 {
        Some(ReplyView { status: 400, text: "count must be > 0"@ })
    } else if queue_locked {
        Some(
            ReplyView { status: 503, text: "Queue is currently locked by another operation"@ },
        )
    } else {
        None
    }
}

fn mock_refusal(request: &MockSubmitRequest, queue_locked: bool) -> (r: Option<Reply>)
    ensures
        match r {
            Some(reply) => mock_answer(request.count, queue_locked) == Some(reply@),
            None => mock_answer(request.count, queue_locked) is None,
        },
{
    if request.count == 0 {
        Some(Reply::new(400, "count must be > 0"))
    } else if queue_locked {
        Some(Reply::new(503, "Queue is currently locked by another operation"))
    } else {
        None
    }
}

/// What is drawn for the parameters of a made-up simulation.
#[derive(Clone, Copy, Debug, PartialEq, Eq, Structural)]
pub struct MockShape {
    pub step: u32,
    pub minutes: u32,
    pub chart: u32,
}

impl MockShape {
    /// Whether such a shape can be drawn.
    pub open spec fn drawn(self) -> bool {
        &&& self.step < 100
        &&& 3 <= self.minutes <= 15
        &&& 1 <= self.chart < 4
    }
}

/// A generator for made-up simulations, seeded by the operating system.
pub fn mock_source() -> rand::rngs::StdRng {
    seeded_rng()
}

/// Draws the parameters of a made-up simulation.
fn draw_shape(rng: &mut rand::rngs::StdRng) -> (r: MockShape)
    ensures
        r.drawn(),
{
    let step: u32 = draw(rng, 0, 100);
    let minutes: u32 = draw(rng, 3, 16);
    let chart: u32 = draw(rng, 1, 4);
    MockShape { step, minutes, chart }
}

/// The node count of the simulation at a place in a batch; nothing where it would be too large.
fn mock_nodes(base_nodes: u32, index: u32, step: u32) -> (r: Option<u32>)
    ensures
        match r {
            Some(n) => n == base_nodes + step * (index + 1),
            None => base_nodes + step * (index + 1) > u32::MAX,
        },
{
    proof {
        assert(step * (index + 1) <= 0xffff_ffff * 0x1_0000_0000) by (nonlinear_arith)
            requires
                step <= 0xffff_ffff,
                index <= 0xffff_ffff,
        ;
    }
    let n: u128 = base_nodes as u128 + step as u128 * (index as u128 + 1);
    if n <= u32::MAX as u128 {
        Some(n as u32)
    } else {
        None
    }
}

/// The parameters of a made-up simulation.
pub open spec fn mock_view(shape: MockShape, node_count: u32) -> SimulationParamsView {
    SimulationParamsView {
        chart: "mock-chart-"@ + decimal(shape.chart as nat),
        node_count: node_count,
        duration_secs: (shape.minutes * 60) as u32,
    }
}

fn mock_params(shape: &MockShape, node_count: u32) -> (r: SimulationParams)
    requires
        shape.drawn(),
    ensures
        r@ == mock_view(*shape, node_count),
{
    let mut chart: String = "mock-chart-".to_owned();
    append_decimal(&mut chart, shape.chart as u128);
    SimulationParams { chart, node_count, duration_secs: shape.minutes * 60 }
}

/// An amount spread around a middle: the middle, shifted by a part of the spread.
pub open spec fn jittered(middle: u32, spread: u32, shift: u32, part: Single) -> Single {
    (Single { bits: middle }).sum(
        part.product(Single { bits: spread }).difference(Single { bits: shift }),
    )
}

fn jitter(middle: u32, spread: u32, shift: u32, part: Single) -> (r: Single)
    ensures
        r == jittered(middle, spread, shift, part),
{
    let offset: Single = part.times(Single { bits: spread }).minus(Single { bits: shift });
    let middle: Single = Single { bits: middle };
    middle.plus(offset)
}

/// What a made-up simulation is thought to cost, given two parts of one that were drawn.
pub open spec fn mock_estimate(node_count: u32, cpu: Single, memory: Single) -> ResourceCost {
    per_node(
        node_count,
        jittered(MOCK_CPU_PER_NODE, MOCK_CPU_SPREAD, MOCK_CPU_SHIFT, cpu),
        jittered(MOCK_MEMORY_PER_NODE, MOCK_MEMORY_SPREAD, MOCK_MEMORY_SHIFT, memory),
    )
}

/// A simulation with nothing but its parameters and its cost.
pub open spec fn bare(
    request_id: u128,
    params: SimulationParamsView,
    cost: ResourceCost,
) -> QueuedView {
    QueuedView {
        request_id: request_id,
        params: params,
        predicted_cost: cost,
        issue_number: None,
        bootstrap_nodes: None,
        workload: no_workload(),
        parallel_limit: 1,
    }
}

/// A made-up simulation: its cost is the one that the history holds where that is believed.
pub fn mock_simulation(
    request_id: u128,
    params: SimulationParams,
    cpu: Single,
    memory: Single,
    observed: &Result<Option<ResourceCost>, String>,
) -> (r: QueuedSimulation)
    ensures
        r@ == priced_queued(
            bare(
                request_id,
                params@,
                checked_cost(mock_estimate(params.node_count, cpu, memory), *observed),
            ),
        ),
{
    let estimate: ResourceCost = cost_per_node(
        params.node_count,
        jitter(MOCK_CPU_PER_NODE, MOCK_CPU_SPREAD, MOCK_CPU_SHIFT, cpu),
        jitter(MOCK_MEMORY_PER_NODE, MOCK_MEMORY_SPREAD, MOCK_MEMORY_SHIFT, memory),
    );
    let sim: QueuedSimulation = QueuedSimulation {
        request_id,
        params,
        predicted_cost: check_observed(estimate, observed),
        issue_number: None,
        docker_image: String::new(),
        pubsub_topic: String::new(),
        bootstrap_nodes: None,
        publisher_enabled: false,
        publisher_message_size: 0,
        publisher_delay: 0,
        publisher_message_count: 0,
        artificial_latency: false,
        latency_ms: 0,
        nodes_command: None,
        bootstrap_command: None,
        peer_number: None,
        number_of_peers: None,
        peers_to_connect: None,
        message_rate: None,
        message_size: None,
        parallel_limit: 1,
    };
    assert(sim@.workload.docker_image =~= Seq::empty());
    price_queued(&sim)
}

/// The made-up simulations that a request asks for, as far as they have been made.
#[derive(Debug)]
pub struct MockBatch {
    pub request: MockSubmitRequest,
    pub made: Vec<QueuedSimulation>,
}

impl MockBatch {
    /// No more simulations have been made than were asked for.
    pub open spec fn well_formed(self) -> bool {
        self.made@.len() <= self.request.count
    }

    /// Begins with nothing made, or says why nothing will be.
    pub fn begin(request: MockSubmitRequest, queue_locked: bool) -> (r: Result<Self, Reply>)
        ensures
            match r {
                Ok(batch) => {
                    &&& mock_answer(request.count, queue_locked) is None
                    &&& batch.request == request
                    &&& batch.made@.len() == 0
                    &&& batch.well_formed()
                },
                Err(reply) => mock_answer(request.count, queue_locked) == Some(reply@),
            },
    {
        match mock_refusal(&request, queue_locked) {
            Some(reply) => Err(reply),
            None => Ok(MockBatch { request, made: Vec::new() }),
        }
    }

    /// Draws the next simulation, if one is still to be made.
    pub fn draw_next(&self, rng: &mut rand::rngs::StdRng) -> (r: Option<MockShape>)
        ensures
            match r {
                Some(shape) => self.made@.len() < self.request.count && shape.drawn(),
                None => self.made@.len() >= self.request.count,
            },
    {
        if self.made.len() < self.request.count as usize {
            Some(draw_shape(rng))
        } else {
            None
        }
    }

    /// The parameters of the next simulation; nothing where it would have too many nodes. The
    /// more have been made, the more nodes the next one tends to have.
    pub fn next_params(&self, shape: &MockShape) -> (r: Option<SimulationParams>)
        requires
            self.made@.len() < self.request.count,
            shape.drawn(),
        ensures
            ({
                let nodes = self.request.base_nodes + shape.step * (self.made@.len() + 1);
                match r {
                    Some(params) => nodes <= u32::MAX && params@ == mock_view(
                        *shape,
                        nodes as u32,
                    ),
                    None => nodes > u32::MAX,
                }
            }),
    {
        match mock_nodes(self.request.base_nodes, self.made.len() as u32, shape.step) {
            Some(node_count) => Some(mock_params(shape, node_count)),
            None => None,
        }
    }

    /// Makes the next simulation.
    pub fn make(
        &mut self,
        request_id: u128,
        params: SimulationParams,
        cpu: Single,
        memory: Single,
        observed: &Result<Option<ResourceCost>, String>,
    )
        requires
            old(self).made@.len() < old(self).request.count,
        ensures
            final(self).well_formed(),
            final(self).request == old(self).request,
            queue_view(final(self).made@) == queue_view(old(self).made@).push(
                priced_queued(
                    bare(
                        request_id,
                        params@,
                        checked_cost(mock_estimate(params.node_count, cpu, memory), *observed),
                    ),
                ),
            ),
    {
        let sim: QueuedSimulation = mock_simulation(request_id, params, cpu, memory, observed);
        self.made.push(sim);
        assert(queue_view(self.made@) =~= queue_view(old(self).made@).push(sim@));
    }
}

/// Whether the first simulation of the queue may run: what is measured and what it is
/// predicted to cost stay within the limits.
pub open spec fn admits_next(s: SchedulerView) -> bool {
    s.queued.len() > 0 && with_cost(s.cluster, s.queued[0].predicted_cost).within(s.queue_limits)
}

/// The size of a simulation: thousands of nodes, cut to whole ones, or the node count where
/// that is below one thousand.
pub open spec fn size_label(node_count: u32) -> Seq<char> {
    let thousands = Single::of_int(node_count as int).quotient(Single { bits: THOUSAND });
    if (Single { bits: ONE }).le(thousands) {
        decimal(thousands.whole()) + "k"@
    } else {
        decimal(node_count as nat)
    }
}

pub fn size_text(node_count: u32) -> (r: String)
    ensures
        r@ == size_label(node_count),
{
    let thousands: Single = Single::from_u32(node_count).over(Single { bits: THOUSAND });
    let one: Single = Single { bits: ONE };
    if one.at_most(thousands) {
        let mut r: String = decimal_text(thousands.truncate() as u128);
        r.append("k");
        r
    } else {
        decimal_text(node_count as u128)
    }
}

/// The number, or zero where there is none.
pub open spec fn or_zero(n: Option<u32>) -> nat {
    match n {
        Some(n) => n as nat,
        None => 0,
    }
}

/// The name that a simulation is deployed under. It ends in the first characters of the
/// identifier of the request, which tell simulations of the same kind apart.
pub open spec fn release_name(q: QueuedView) -> Seq<char> {
    let size = size_label(q.params.node_count);
    let mark = hyphenated(q.request_id).subrange(0, 6);
    let w = q.workload;
    if q.params.chart == "waku"@ {
        "waku-"@ + size + "-"@ + decimal(w.publisher_message_size as nat) + "mgs-"@ + decimal(
            w.publisher_delay as nat,
        ) + "s-"@ + decimal(w.publisher_message_size as nat) + "kb-"@ + mark
    } else {
        "nimlibp2p-"@ + size + "-"@ + decimal(or_zero(w.message_rate)) + "mgs-"@ + decimal(
            or_zero(w.message_size),
        ) + "kb-"@ + mark
    }
}

fn value_or_zero(n: Option<u32>) -> (r: u128)
    ensures
        r == or_zero(n),
{
    match n {
        Some(n) => n as u128,
        None => 0,
    }
}

/// The name that a simulation is deployed under.
pub fn make_release_name(sim: &QueuedSimulation) -> (r: String)
    ensures
        r@ == release_name(sim@),
{
    let id: String = uuid_text(sim.request_id);
    let mark: &str = id.as_str().substring_char(0, 6);
    let size: String = size_text(sim.params.node_count);
    if same(sim.params.chart.as_str(), "waku") {
        let mut r: String = "waku-".to_owned();
        r.append(size.as_str());
        r.append("-");
        append_decimal(&mut r, sim.publisher_message_size as u128);
        r.append("mgs-");
        append_decimal(&mut r, sim.publisher_delay as u128);
        r.append("s-");
        append_decimal(&mut r, sim.publisher_message_size as u128);
        r.append("kb-");
        r.append(mark);
        r
    } else {
        let mut r: String = "nimlibp2p-".to_owned();
        r.append(size.as_str());
        r.append("-");
        append_decimal(&mut r, value_or_zero(sim.message_rate));
        r.append("mgs-");
        append_decimal(&mut r, value_or_zero(sim.message_size));
        r.append("kb-");
        r.append(mark);
        r
    }
}

/// The number of bootstrap nodes where the request does not say.
pub const BOOTSTRAP_NODES: u32 = 3;

/// A simulation that has left the queue to run.
pub open spec fn admitted(q: QueuedView, simulation_id: u128, now: Timestamp) -> ActiveView {
    ActiveView {
        simulation_id: simulation_id,
        request_id: q.request_id,
        params: q.params,
        predicted_cost: q.predicted_cost,
        actual_cost: no_cost(),
        usage_snapshots: Seq::empty(),
        last_snapshot_time: now,
        monetary_cost_eur_predicted: Some(
            monetary_cost(q.predicted_cost, q.params.duration_secs),
        ),
        monetary_cost_eur_actual: None,
        release_name: release_name(q),
        issue_number: q.issue_number,
        status: "PendingDeployment"@,
        start_time: None,
        end_time: None,
        bootstrap_nodes: match q.bootstrap_nodes {
            Some(n) => n,
            None => BOOTSTRAP_NODES,
        },
        workload: q.workload,
    }
}

/// The state after the queue was looked at: its first simulation runs where it may, and
/// nothing changes otherwise.
pub open spec fn after_admission(s: SchedulerView, id: u128, now: Timestamp) -> SchedulerView {
    if admits_next(s) {
        SchedulerView {
            queued: s.queued.drop_first(),
            active: put(s.active, id, admitted(s.queued[0], id, now)),
            ..s
        }
    } else {
        s
    }
}

/// What looking at the queue has led to.
#[derive(Debug)]
pub enum Admission {
    /// The queue is empty.
    Empty,
    /// The first simulation stays in the queue, for this reason.
    Refused(String),
    /// The simulation runs: what is to be deployed, and what watchers are told.
    Started { simulation: ActiveSimulation, events: Vec<AppEvent> },
}

impl Admission {
    /// Whether a simulation has been started.
    pub fn started(&self) -> (r: bool)
        ensures
            r == self is Started,
    {
        match self {
            Admission::Started { .. } => true,
            _ => false,
        }
    }
}

/// A simulation that is to run again: with the same configuration, and a new prediction.
pub open spec fn requeued(
    original: ActiveView,
    cost: ResourceCost,
    request_id: u128,
) -> QueuedView {
    QueuedView {
        request_id: request_id,
        params: original.params,
        predicted_cost: cost,
        issue_number: original.issue_number,
        bootstrap_nodes: Some(original.bootstrap_nodes),
        workload: original.workload,
        parallel_limit: 1,
    }
}

/// What the run history holds of a run that is to be repeated.
#[derive(Debug)]
pub enum Recorded {
    /// The run, with its configuration.
    Found(ActiveSimulation),
    /// The run, with a configuration that cannot be read.
    Unreadable,
    /// There is no such run.
    Missing,
    /// The history could not be asked.
    Failed,
}

/// That a run is to be repeated: the answer, and what watchers are told.
#[derive(Debug)]
pub struct Rerun {
    pub message: String,
    pub new_request_id: String,
    pub event: AppEvent,
}

/// The identifier of the run that is to be repeated.
pub fn rerun_id(text: &str) -> (r: Result<u128, Reply>)
    ensures
        match r {
            Ok(id) => uuid_number(text@) == Some(id as nat),
            Err(e) => uuid_number(text@) is None && e@ == (ReplyView {
                status: 400,
                text: "Invalid simulation ID format"@,
            }),
        },
{
    match parse_uuid(text) {
        Ok(id) => Ok(id),
        Err(_) => Err(Reply::new(400, "Invalid simulation ID format")),
    }
}

/// The state once a simulation has been queued.
pub open spec fn after_enqueue(s: SchedulerView, q: QueuedView) -> SchedulerView {
    SchedulerView { queued: s.queued.push(q), ..s }
}

/// The state once several simulations have been queued, in their order.
pub open spec fn after_enqueue_all(s: SchedulerView, batch: Seq<QueuedView>) -> SchedulerView {
    SchedulerView { queued: s.queued + batch, ..s }
}

impl Scheduler {
    /// Puts simulations at the end of the queue, in their order.
    pub fn enqueue_mocks(&mut self, batch: Vec<QueuedSimulation>) -> (r: AppEvent)
        ensures
            final(self)@ == after_enqueue_all(old(self)@, queue_view(batch@)),
            r@ == EventView::QueueUpdated(priced_queue(final(self)@.queued)),
            old(self)@.well_formed() ==> final(self)@.well_formed(),
    {
        let ghost before: Seq<QueuedSimulation> = self.queued@;
        let n: usize = batch.len();
        for i in 0..n
            invariant
                n == batch@.len(),
                self.queued@.len() == before.len() + i,
                forall|j: int|
                    0 <= j < before.len() + i ==> (#[trigger] self.queued@[j])@ == if j
                        < before.len() {
                        before[j]@
                    } else {
                        batch@[j - before.len()]@
                    },
                self@ == (SchedulerView { queued: self@.queued, ..old(self)@ }),
        {
            self.queued.push_back(batch[i].clone());
        }
        assert(self@.queued =~= old(self)@.queued + queue_view(batch@));
        AppEvent::QueueUpdated(price_queue(&self.queue_list()))
    }

    /// Lets the first simulation of the queue run, under the given identifier, if it may.
    pub fn process_next_simulation_from_queue(
        &mut self,
        simulation_id: u128,
        now: Timestamp,
    ) -> (r: Admission)
        ensures
            final(self)@ == after_admission(old(self)@, simulation_id, now),
            r is Empty <==> old(self)@.queued.len() == 0,
            r is Started <==> admits_next(old(self)@),
            r is Started ==> share(
                old(self)@.cluster.used_cpu_cores,
                old(self)@.queued[0].predicted_cost.cpu_cores,
                old(self)@.cluster.total_cpu_cores,
            ).le(old(self)@.queue_limits.cpu_percent),
            r is Started ==> share(
                old(self)@.cluster.used_memory_gb,
                old(self)@.queued[0].predicted_cost.memory_gb,
                old(self)@.cluster.total_memory_gb,
            ).le(old(self)@.queue_limits.memory_percent),
            match r {
                Admission::Empty => true,
                Admission::Refused(reason) => with_cost(
                    old(self)@.cluster,
                    old(self)@.queued[0].predicted_cost,
                ).excess(old(self)@.queue_limits) == Some(reason@),
                Admission::Started { simulation, events } => {
                    &&& simulation@ == admitted(old(self)@.queued[0], simulation_id, now)
                    &&& events_view(events@) == seq![
                        EventView::ActiveUpdated(final(self)@.running()),
                        EventView::QueueUpdated(final(self)@.queued),
                    ]
                },
            },
            old(self)@.well_formed() ==> final(self)@.well_formed(),
    {
        proof {
            if self@.well_formed() {
                admission_keeps_well_formed(self@, simulation_id, now);
            }
        }
        if self.queued.len() == 0 {
            return Admission::Empty;
        }
        let sim: QueuedSimulation = self.queued[0].clone();
        assert(sim@ == old(self)@.queued[0]);
        match refusal(&project(&self.cluster, &sim.predicted_cost), &self.queue_limits) {
            Some(reason) => Admission::Refused(reason),
            None => {
                let _ = self.queued.pop_front();
                assert(self@.queued =~= old(self)@.queued.drop_first());
                let name: String = make_release_name(&sim);
                let price: Single = calculate_monetary_cost(
                    &sim.predicted_cost,
                    sim.params.duration_secs,
                );
                let simulation: ActiveSimulation = ActiveSimulation {
                    simulation_id,
                    request_id: sim.request_id,
                    params: sim.params,
                    predicted_cost: sim.predicted_cost,
                    actual_cost: ResourceCost::default(),
                    usage_snapshots: Vec::new(),
                    last_snapshot_time: now,
                    monetary_cost_eur_predicted: Some(price),
                    monetary_cost_eur_actual: None,
                    release_name: name,
                    issue_number: sim.issue_number,
                    status: "PendingDeployment".to_owned(),
                    start_time: None,
                    end_time: None,
                    docker_image: sim.docker_image,
                    pubsub_topic: sim.pubsub_topic,
                    bootstrap_nodes: match sim.bootstrap_nodes {
                        Some(n) => n,
                        None => BOOTSTRAP_NODES,
                    },
                    publisher_enabled: sim.publisher_enabled,
                    publisher_message_size: sim.publisher_message_size,
                    publisher_delay: sim.publisher_delay,
                    publisher_message_count: sim.publisher_message_count,
                    artificial_latency: sim.artificial_latency,
                    latency_ms: sim.latency_ms,
                    nodes_command: sim.nodes_command,
                    bootstrap_command: sim.bootstrap_command,
                    peer_number: sim.peer_number,
                    number_of_peers: sim.number_of_peers,
                    peers_to_connect: sim.peers_to_connect,
                    message_rate: sim.message_rate,
                    message_size: sim.message_size,
                };
                self.active.insert(simulation_id, simulation.clone());
                let mut events: Vec<AppEvent> = Vec::new();
                events.push(AppEvent::ActiveUpdated(self.active_list()));
                events.push(AppEvent::QueueUpdated(self.queue_list()));
                assert(events_view(events@) =~= seq![
                    EventView::ActiveUpdated(self@.running()),
                    EventView::QueueUpdated(self@.queued),
                ]);
                Admission::Started { simulation, events }
            },
        }
    }

    /// Queues a run again, given its configuration and what it is predicted to cost.
    pub fn queue_rerun(
        &mut self,
        original: ActiveSimulation,
        prediction: Result<ResourceCost, String>,
        request_id: u128,
    ) -> (r: Result<Rerun, Reply>)
        ensures
            match prediction {
                Ok(cost) => {
                    &&& final(self)@ == after_enqueue(
                        old(self)@,
                        requeued(original@, cost, request_id),
                    )
                    &&& r matches Ok(done) && done.message@ == "Simulation queued for rerun"@
                        && done.new_request_id@ == hyphenated(request_id) && done.event@
                        == EventView::QueueUpdated(final(self)@.queued)
                },
                Err(_) => {
                    &&& final(self)@ == old(self)@
                    &&& r matches Err(e) && e@ == (ReplyView {
                        status: 500,
                        text: "Failed to predict cost for rerun"@,
                    })
                },
            },
            old(self)@.well_formed() ==> final(self)@.well_formed(),
    {
        let cost: ResourceCost = match prediction {
            Ok(cost) => cost,
            Err(_) => {
                return Err(Reply::new(500, "Failed to predict cost for rerun"));
            },
        };
        let sim: QueuedSimulation = QueuedSimulation {
            request_id,
            params: original.params,
            predicted_cost: cost,
            issue_number: original.issue_number,
            docker_image: original.docker_image,
            pubsub_topic: original.pubsub_topic,
            bootstrap_nodes: Some(original.bootstrap_nodes),
            publisher_enabled: original.publisher_enabled,
            publisher_message_size: original.publisher_message_size,
            publisher_delay: original.publisher_delay,
            publisher_message_count: original.publisher_message_count,
            artificial_latency: original.artificial_latency,
            latency_ms: original.latency_ms,
            nodes_command: original.nodes_command,
            bootstrap_command: original.bootstrap_command,
            peer_number: original.peer_number,
            number_of_peers: original.number_of_peers,
            peers_to_connect: original.peers_to_connect,
            message_rate: original.message_rate,
            message_size: original.message_size,
            parallel_limit: 1,
        };
        self.queued.push_back(sim);
        assert(self@.queued =~= old(self)@.queued.push(
            requeued(original@, cost, request_id),
        ));
        Ok(
            Rerun {
                message: "Simulation queued for rerun".to_owned(),
                new_request_id: uuid_text(request_id),
                event: AppEvent::QueueUpdated(self.queue_list()),
            },
        )
    }

    /// Queues a run again, given what the run history holds of it.
    pub fn rerun_simulation(&mut self, recorded: Recorded, request_id: u128) -> (r: Result<
        Rerun,
        Reply,
    >)
        ensures
            match recorded {
                Recorded::Found(original) => {
                    &&& final(self)@ == after_enqueue(
                        old(self)@,
                        requeued(original@, default_cost(original@.params), request_id),
                    )
                    &&& r matches Ok(done) && done.message@ == "Simulation queued for rerun"@
                        && done.new_request_id@ == hyphenated(request_id) && done.event@
                        == EventView::QueueUpdated(final(self)@.queued)
                },
                Recorded::Unreadable => {
                    &&& final(self)@ == old(self)@
                    &&& r matches Err(e) && e@ == (ReplyView {
                        status: 500,
                        text: "Failed to parse original simulation config"@,
                    })
                },
                Recorded::Missing => {
                    &&& final(self)@ == old(self)@
                    &&& r matches Err(e) && e@ == (ReplyView {
                        status: 404,
                        text: "Simulation ID not found in history"@,
                    })
                },
                Recorded::Failed => {
                    &&& final(self)@ == old(self)@
                    &&& r matches Err(e) && e@ == (ReplyView {
                        status: 500,
                        text: "Database error"@,
                    })
                },
            },
            old(self)@.well_formed() ==> final(self)@.well_formed(),
    {
        match recorded {
            Recorded::Found(original) => {
                let prediction: Result<ResourceCost, String> = predict_cost(&original.params);
                self.queue_rerun(original, prediction, request_id)
            },
            Recorded::Unreadable => Err(
                Reply::new(500, "Failed to parse original simulation config"),
            ),
            Recorded::Missing => Err(Reply::new(404, "Simulation ID not found in history")),
            Recorded::Failed => Err(Reply::new(500, "Database error")),
        }
    }
}

} // verus!
