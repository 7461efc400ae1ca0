//! What others ask of the scheduler, and report to it: permission to run a simulation, its
//! start, and its end.

use crate::admission::{explain, keeps_target, project, with_cost, within_target, Projection};
use crate::events::{events_view, price_actives, priced_actives, AppEvent, EventView};
use crate::laws::{
    complete_keeps_well_formed, request_keeps_well_formed, start_keeps_well_formed,
};
use crate::model::{
    opt_text, ActiveSimulation, ActiveView, CostHistoryEntry, FinishedView, LastFinishedSimulation,
    ReportCompletePayload, ReportStartPayload, RequestRunPayload, RequestRunResponse, ResourceCost,
    ResourceSnapshot, SimulationParams, SimulationParamsView, Timestamp, WorkloadView,
};
use crate::pricing::{
    calculate_monetary_cost, cost_by_default, default_cost, lookup_usable, monetary_cost,
    predict_from_history, predicted_cost, HistoryLookup,
};
use crate::registry::{lookup, put, without};
use crate::single::Single;
use crate::state::{Scheduler, SchedulerView};
use vstd::prelude::*;

verus! {

/// One cost added to another.
pub open spec fn joint_cost(a: ResourceCost, b: ResourceCost) -> ResourceCost {
    ResourceCost {
        cpu_cores: a.cpu_cores.sum(b.cpu_cores),
        memory_gb: a.memory_gb.sum(b.memory_gb),
        monetary_cost_eur: None,
    }
}

/// A cost with further costs added to it one after the other.
pub open spec fn total_cost(cost: ResourceCost, further: Seq<ResourceCost>) -> ResourceCost
    decreases further.len(),
{
    if further.len() == 0 {
        cost
    } else {
        joint_cost(total_cost(cost, further.drop_last()), further.last())
    }
}

/// The predicted costs of what has been approved: first what has not yet started, then what runs.
pub open spec fn approved_costs(s: SchedulerView) -> Seq<ResourceCost> {
    Seq::new(s.pending.len(), |i: int| s.pending[i].1) + Seq::new(
        s.active.len(),
        |i: int| s.active[i].1.predicted_cost,
    )
}

/// What costs take of the cores.
pub open spec fn cpu_of(costs: Seq<ResourceCost>) -> Seq<Single> {
    Seq::new(costs.len(), |i: int| costs[i].cpu_cores)
}

/// What costs take of the memory.
pub open spec fn memory_of(costs: Seq<ResourceCost>) -> Seq<Single> {
    Seq::new(costs.len(), |i: int| costs[i].memory_gb)
}

/// The parts of the load on the cores with one more simulation: what is measured, what it is
/// predicted to use, and what has been approved.
pub open spec fn cpu_parts(s: SchedulerView, cost: ResourceCost) -> Seq<Single> {
    seq![s.cluster.used_cpu_cores, cost.cpu_cores] + cpu_of(approved_costs(s))
}

/// The parts of the load on the memory with one more simulation.
pub open spec fn memory_parts(s: SchedulerView, cost: ResourceCost) -> Seq<Single> {
    seq![s.cluster.used_memory_gb, cost.memory_gb] + memory_of(approved_costs(s))
}

/// The use of the cluster with one more simulation, on top of what is measured and of what has
/// been approved, in rounded percent.
pub open spec fn request_projection(s: SchedulerView, cost: ResourceCost) -> Projection {
    with_cost(s.cluster, total_cost(cost, approved_costs(s)))
}

/// What a request asks to run.
pub open spec fn requested(payload: RequestRunPayload) -> SimulationParamsView {
    SimulationParamsView {
        chart: payload.chart@,
        node_count: payload.node_count,
        duration_secs: payload.duration_secs,
    }
}

/// Whether one more simulation keeps the limit on the cores.
pub open spec fn cpu_fits(s: SchedulerView, cost: ResourceCost) -> bool {
    within_target(
        cpu_parts(s, cost),
        s.cluster.total_cpu_cores,
        s.request_limits.cpu_percent,
        request_projection(s, cost).cpu_percent,
    )
}

/// Whether one more simulation keeps the limit on the memory.
pub open spec fn memory_fits(s: SchedulerView, cost: ResourceCost) -> bool {
    within_target(
        memory_parts(s, cost),
        s.cluster.total_memory_gb,
        s.request_limits.memory_percent,
        request_projection(s, cost).memory_percent,
    )
}

/// Whether a request is approved.
pub open spec fn approves(
    s: SchedulerView,
    params: SimulationParamsView,
    history: HistoryLookup,
) -> bool {
    let cost = predicted_cost(params, history);
    cpu_fits(s, cost) && memory_fits(s, cost)
}

/// The state after a request: an approved one is remembered with its predicted cost.
pub open spec fn after_request(
    s: SchedulerView,
    params: SimulationParamsView,
    history: HistoryLookup,
    id: u128,
) -> SchedulerView {
    if approves(s, params, history) {
        SchedulerView { pending: put(s.pending, id, predicted_cost(params, history)), ..s }
    } else {
        s
    }
}

pub struct ResponseView {
    pub status: Seq<char>,
    pub simulation_id: Option<u128>,
    pub reason: Option<Seq<char>>,
}

impl View for RequestRunResponse {
    type V = ResponseView;

    open spec fn view(&self) -> ResponseView {
        ResponseView {
            status: self.status@,
            simulation_id: self.simulation_id,
            reason: opt_text(self.reason),
        }
    }
}

/// The answer to a request.
pub open spec fn request_answer(
    s: SchedulerView,
    params: SimulationParamsView,
    history: HistoryLookup,
    id: u128,
) -> ResponseView {
    if approves(s, params, history) {
        ResponseView { status: "ACCEPTED"@, simulation_id: Some(id), reason: None }
    } else {
        let cost = predicted_cost(params, history);
        ResponseView {
            status: "REJECTED"@,
            simulation_id: None,
            reason: request_projection(s, cost).reasons(
                s.request_limits,
                cpu_fits(s, cost),
                memory_fits(s, cost),
            ),
        }
    }
}

/// The parameters of a deployment that the scheduler does not make itself.
pub open spec fn no_workload() -> WorkloadView {
    WorkloadView {
        docker_image: Seq::empty(),
        pubsub_topic: Seq::empty(),
        publisher_enabled: false,
        publisher_message_size: 0,
        publisher_delay: 0,
        publisher_message_count: 0,
        artificial_latency: false,
        latency_ms: 0,
        nodes_command: None,
        bootstrap_command: None,
        peer_number: None,
        number_of_peers: None,
        peers_to_connect: None,
        message_rate: None,
        message_size: None,
    }
}

/// What a report of a start says of the simulation.
pub open spec fn reported(payload: ReportStartPayload) -> SimulationParamsView {
    SimulationParamsView {
        chart: payload.chart@,
        node_count: payload.node_count,
        duration_secs: payload.duration_secs,
    }
}

/// The cost that was predicted when the simulation was approved; the one by default where
/// nothing is known of an approval.
pub open spec fn remembered_cost(s: SchedulerView, payload: ReportStartPayload) -> ResourceCost {
    match lookup(s.pending, payload.simulation_id) {
        Some(cost) => cost,
        None => default_cost(reported(payload)),
    }
}

/// A simulation that somebody else has started.
pub open spec fn started(
    payload: ReportStartPayload,
    cost: ResourceCost,
    request_id: u128,
    now: Timestamp,
) -> ActiveView {
    ActiveView {
        simulation_id: payload.simulation_id,
        request_id: request_id,
        params: reported(payload),
        predicted_cost: cost,
        actual_cost: cost,
        usage_snapshots: Seq::empty(),
        last_snapshot_time: now,
        monetary_cost_eur_predicted: Some(monetary_cost(cost, payload.duration_secs)),
        monetary_cost_eur_actual: Some(monetary_cost(cost, payload.duration_secs)),
        release_name: payload.release_name@,
        issue_number: None,
        status: "PendingDeployment"@,
        start_time: None,
        end_time: None,
        bootstrap_nodes: 0,
        workload: no_workload(),
    }
}

/// The state after the report of a start: the simulation runs, and its approval is used up.
pub open spec fn after_start(
    s: SchedulerView,
    payload: ReportStartPayload,
    request_id: u128,
    now: Timestamp,
) -> SchedulerView {
    let sim = started(payload, remembered_cost(s, payload), request_id, now);
    SchedulerView {
        pending: without(s.pending, payload.simulation_id),
        active: put(s.active, payload.simulation_id, sim),
        ..s
    }
}

/// The greater of two numbers; the other one where one is not a number.
pub open spec fn greater(a: Single, b: Single) -> Single {
    if b.is_nan() || b.le(a) {
        a
    } else {
        b
    }
}

/// The most that was used at any moment, of the cores and of the memory each on its own.
pub open spec fn peak_usage(snaps: Seq<ResourceSnapshot>) -> ResourceCost
    recommends
        snaps.len() > 0,
    decreases snaps.len(),
{
    let last = snaps.last();
    if snaps.len() <= 1 {
        ResourceCost {
            cpu_cores: last.cpu_cores,
            memory_gb: last.memory_gb,
            monetary_cost_eur: None,
        }
    } else {
        let before = peak_usage(snaps.drop_last());
        ResourceCost {
            cpu_cores: greater(before.cpu_cores, last.cpu_cores),
            memory_gb: greater(before.memory_gb, last.memory_gb),
            monetary_cost_eur: None,
        }
    }
}

fn the_greater(a: Single, b: Single) -> (r: Single)
    ensures
        r == greater(a, b),
{
    if !b.at_most(b) || b.at_most(a) {
        a
    } else {
        b
    }
}

/// The most that was used at any moment.
fn find_peak(snaps: &Vec<ResourceSnapshot>) -> (r: ResourceCost)
    requires
        snaps@.len() > 0,
    ensures
        r == peak_usage(snaps@),
{
    let mut r: ResourceCost = ResourceCost {
        cpu_cores: snaps[0].cpu_cores,
        memory_gb: snaps[0].memory_gb,
        monetary_cost_eur: None,
    };
    let n: usize = snaps.len();
    for i in 1..n
        invariant
            1 <= i <= n,
            n == snaps@.len(),
            r == peak_usage(snaps@.take(i as int)),
    {
        let ghost now: Seq<ResourceSnapshot> = snaps@.take(i + 1);
        assert(now.drop_last() =~= snaps@.take(i as int));
        assert(now.last() == snaps@[i as int]);
        r =
        ResourceCost {
            cpu_cores: the_greater(r.cpu_cores, snaps[i].cpu_cores),
            memory_gb: the_greater(r.memory_gb, snaps[i].memory_gb),
            monetary_cost_eur: None,
        };
    }
    assert(snaps@.take(n as int) =~= snaps@);
    r
}

/// What a simulation has cost in the end: the peak of its snapshots, else what the report says
/// of it, else what it was thought to cost.
pub open spec fn final_cost(sim: ActiveView, payload: ReportCompletePayload) -> ResourceCost {
    if sim.usage_snapshots.len() > 0 {
        peak_usage(sim.usage_snapshots)
    } else if payload.final_cpu_cores is Some || payload.final_memory_gb is Some {
        ResourceCost {
            cpu_cores: match payload.final_cpu_cores {
                Some(cpu) => cpu,
                None => sim.actual_cost.cpu_cores,
            },
            memory_gb: match payload.final_memory_gb {
                Some(memory) => memory,
                None => sim.actual_cost.memory_gb,
            },
            monetary_cost_eur: None,
        }
    } else {
        sim.actual_cost
    }
}

/// A simulation that has ended.
pub open spec fn finished(sim: ActiveView, cost: ResourceCost, now: Timestamp) -> FinishedView {
    FinishedView {
        simulation_id: sim.simulation_id,
        params: sim.params,
        predicted_cost: sim.predicted_cost,
        actual_cost: cost,
        finished_at: now,
        duration_secs: sim.params.duration_secs,
    }
}

/// The state after the report of an end: an approval that was never used is dropped, and a
/// simulation that ran is the one that finished last. Nothing changes where neither is known.
pub open spec fn after_complete(
    s: SchedulerView,
    payload: ReportCompletePayload,
    now: Timestamp,
) -> SchedulerView {
    let id = payload.simulation_id;
    if lookup(s.pending, id) is Some {
        SchedulerView { pending: without(s.pending, id), ..s }
    } else {
        match lookup(s.active, id) {
            Some(sim) => SchedulerView {
                active: without(s.active, id),
                last_finished: Some(
                    FinishedView {
                        simulation_id: id,
                        ..finished(sim, final_cost(sim, payload), now)
                    },
                ),
                ..s
            },
            None => s,
        }
    }
}

/// What the report of an end has led to.
#[derive(Debug)]
pub enum Completion {
    /// The simulation had been approved, and its start was never reported.
    NeverStarted,
    /// The simulation ran: what watchers are told, and what the cost history is to keep.
    Finished { events: Vec<AppEvent>, entry: CostHistoryEntry },
    /// There is no such simulation.
    Unknown,
}

impl Completion {
    /// The HTTP status of the answer to the report.
    pub open spec fn status_code(self) -> u16 {
        match self {
            Completion::Unknown => 404,
            _ => 200,
        }
    }

    pub fn status(&self) -> (r: u16)
        ensures
            r == self.status_code(),
            r == 404 <==> self is Unknown,
    {
        match self {
            Completion::Unknown => 404,
            _ => 200,
        }
    }
}

/// Whether a history entry holds the cost of a simulation with the given parameters.
pub open spec fn records(
    entry: CostHistoryEntry,
    params: SimulationParamsView,
    cost: ResourceCost,
    at: Timestamp,
) -> bool {
    &&& entry.chart@ == params.chart
    &&& entry.node_count == params.node_count
    &&& entry.duration_secs == params.duration_secs
    &&& entry.cpu_cores == cost.cpu_cores
    &&& entry.memory_gb == cost.memory_gb
    &&& entry.observed_at == at
}

/// A cost with further costs added to it one after the other.
fn add_costs(cost: ResourceCost, further: &Vec<ResourceCost>) -> (r: ResourceCost)
    ensures
        r == total_cost(cost, further@),
{
    let mut r: ResourceCost = cost;
    for i in 0..further.len()
        invariant
            r == total_cost(cost, further@.take(i as int)),
    {
        proof {
            assert(further@.take(i + 1).drop_last() =~= further@.take(i as int));
        }
        r =
        ResourceCost {
            cpu_cores: r.cpu_cores.plus(further[i].cpu_cores),
            memory_gb: r.memory_gb.plus(further[i].memory_gb),
            monetary_cost_eur: None,
        };
    }
    assert(further@.take(further@.len() as int) =~= further@);
    r
}

impl Scheduler {
    /// The predicted costs of what has been approved.
    fn approved_list(&self) -> (r: Vec<ResourceCost>)
        ensures
            r@ == approved_costs(self@),
    {
        let mut r: Vec<ResourceCost> = Vec::new();
        let ghost all: Seq<ResourceCost> = approved_costs(self@);
        let p: usize = self.pending.len();
        for i in 0..p
            invariant
                p == self.pending@.len(),
                all == approved_costs(self@),
                r@ =~= all.take(i as int),
        {
            let (_, c) = self.pending.at(i);
            r.push(*c);
        }
        let n: usize = self.active.len();
        for i in 0..n
            invariant
                p == self.pending@.len(),
                n == self.active@.len(),
                all == approved_costs(self@),
                r@ =~= all.take(p + i),
        {
            let (_, sim) = self.active.at(i);
            r.push(sim.predicted_cost);
        }
        r
    }

    /// The parts of the load on the cores.
    fn list_cpu(&self, cost: &ResourceCost, approved: &Vec<ResourceCost>) -> (r: Vec<Single>)
        requires
            approved@ == approved_costs(self@),
        ensures
            r@ == cpu_parts(self@, *cost),
    {
        let mut r: Vec<Single> = Vec::new();
        r.push(self.cluster.used_cpu_cores);
        r.push(cost.cpu_cores);
        for i in 0..approved.len()
            invariant
                approved@ == approved_costs(self@),
                r@ =~= cpu_parts(self@, *cost).take(i + 2),
        {
            r.push(approved[i].cpu_cores);
        }
        r
    }

    /// The parts of the load on the memory.
    fn list_memory(&self, cost: &ResourceCost, approved: &Vec<ResourceCost>) -> (r: Vec<Single>)
        requires
            approved@ == approved_costs(self@),
        ensures
            r@ == memory_parts(self@, *cost),
    {
        let mut r: Vec<Single> = Vec::new();
        r.push(self.cluster.used_memory_gb);
        r.push(cost.memory_gb);
        for i in 0..approved.len()
            invariant
                approved@ == approved_costs(self@),
                r@ =~= memory_parts(self@, *cost).take(i + 2),
        {
            r.push(approved[i].memory_gb);
        }
        r
    }

    /// Decides on a request to run a simulation, which is approved under the given identifier.
    pub fn request_run(
        &mut self,
        payload: &RequestRunPayload,
        history: &HistoryLookup,
        simulation_id: u128,
    ) -> (r: RequestRunResponse)
        requires
            lookup_usable(*history, payload.node_count),
        ensures
            r@ == request_answer(old(self)@, requested(*payload), *history, simulation_id),
            final(self)@ == after_request(
                old(self)@,
                requested(*payload),
                *history,
                simulation_id,
            ),
            old(self)@.well_formed() ==> final(self)@.well_formed(),
    {
        proof {
            if self@.well_formed() {
                request_keeps_well_formed(self@, requested(*payload), *history, simulation_id);
            }
        }
        let params: SimulationParams = SimulationParams {
            chart: payload.chart.clone(),
            node_count: payload.node_count,
            duration_secs: payload.duration_secs,
        };
        let predicted: ResourceCost = predict_from_history(&params, history);
        let approved: Vec<ResourceCost> = self.approved_list();
        let projection: Projection = project(&self.cluster, &add_costs(predicted, &approved));
        let cpu_ok: bool = keeps_target(
            &self.list_cpu(&predicted, &approved),
            self.cluster.total_cpu_cores,
            self.request_limits.cpu_percent,
            projection.cpu_percent,
        );
        let memory_ok: bool = keeps_target(
            &self.list_memory(&predicted, &approved),
            self.cluster.total_memory_gb,
            self.request_limits.memory_percent,
            projection.memory_percent,
        );
        match explain(&projection, &self.request_limits, cpu_ok, memory_ok) {
            None => {
                self.pending.insert(simulation_id, predicted);
                RequestRunResponse {
                    status: "ACCEPTED".to_owned(),
                    simulation_id: Some(simulation_id),
                    reason: None,
                }
            },
            Some(reason) => RequestRunResponse {
                status: "REJECTED".to_owned(),
                simulation_id: None,
                reason: Some(reason),
            },
        }
    }

    /// Takes note that a simulation has been started.
    pub fn report_start(
        &mut self,
        payload: ReportStartPayload,
        request_id: u128,
        now: Timestamp,
    ) -> (r: AppEvent)
        ensures
            final(self)@ == after_start(old(self)@, payload, request_id, now),
            r@ == EventView::ActiveUpdated(priced_actives(final(self)@.running())),
            old(self)@.well_formed() ==> final(self)@.well_formed(),
    {
        proof {
            if self@.well_formed() {
                start_keeps_well_formed(self@, payload, request_id, now);
            }
        }
        let id: u128 = payload.simulation_id;
        let params: SimulationParams = SimulationParams {
            chart: payload.chart,
            node_count: payload.node_count,
            duration_secs: payload.duration_secs,
        };
        let cost: ResourceCost = match self.pending.remove(id) {
            Some(cost) => cost,
            None => cost_by_default(&params),
        };
        let sim: ActiveSimulation = ActiveSimulation {
            simulation_id: id,
            request_id,
            params,
            predicted_cost: cost,
            actual_cost: cost,
            monetary_cost_eur_predicted: Some(
                calculate_monetary_cost(&cost, payload.duration_secs),
            ),
            monetary_cost_eur_actual: Some(calculate_monetary_cost(&cost, payload.duration_secs)),
            usage_snapshots: Vec::new(),
            last_snapshot_time: now,
            release_name: payload.release_name,
            issue_number: None,
            status: "PendingDeployment".to_owned(),
            start_time: None,
            end_time: None,
            docker_image: String::new(),
            pubsub_topic: String::new(),
            bootstrap_nodes: 0,
            publisher_enabled: false,
            publisher_message_size: 0,
            publisher_delay: 0,
            publisher_message_count: 0,
            artificial_latency: false,
            latency_ms: 0,
            nodes_command: None,
            bootstrap_command: None,
            peer_number: None,
            number_of_peers: None,
            peers_to_connect: None,
            message_rate: None,
            message_size: None,
        };
        self.active.insert(id, sim);
        AppEvent::ActiveUpdated(price_actives(&self.active_list()))
    }

    /// Takes note that a simulation has ended.
    pub fn report_complete(&mut self, payload: &ReportCompletePayload, now: Timestamp) -> (r:
        Completion)
        ensures
            final(self)@ == after_complete(old(self)@, *payload, now),
            r is NeverStarted <==> lookup(old(self)@.pending, payload.simulation_id) is Some,
            r is Finished <==> lookup(old(self)@.pending, payload.simulation_id) is None && lookup(
                old(self)@.active,
                payload.simulation_id,
            ) is Some,
            r is Unknown <==> lookup(old(self)@.pending, payload.simulation_id) is None && lookup(
                old(self)@.active,
                payload.simulation_id,
            ) is None,
            match r {
                Completion::Finished { events, entry } => {
                    let sim = lookup(old(self)@.active, payload.simulation_id)->0;
                    &&& events_view(events@) == seq![
                        EventView::ActiveUpdated(priced_actives(final(self)@.running())),
                        EventView::LastFinished(final(self)@.last_finished->0),
                    ]
                    &&& records(entry, sim.params, final_cost(sim, *payload), now)
                    &&& entry.cpu_cores == final(self)@.last_finished->0.actual_cost.cpu_cores
                    &&& entry.memory_gb == final(self)@.last_finished->0.actual_cost.memory_gb
                    &&& sim.usage_snapshots.len() == 0 && payload.final_cpu_cores is Some ==> Some(
                        entry.cpu_cores,
                    ) == payload.final_cpu_cores
                    &&& sim.usage_snapshots.len() == 0 && payload.final_memory_gb is Some ==> Some(
                        entry.memory_gb,
                    ) == payload.final_memory_gb
                },
                _ => true,
            },
            old(self)@.well_formed() ==> final(self)@.well_formed(),
    {
        proof {
            if self@.well_formed() {
                complete_keeps_well_formed(self@, *payload, now);
            }
        }
        let id: u128 = payload.simulation_id;
        if self.pending.remove(id).is_some() {
            return Completion::NeverStarted;
        }
        match self.active.remove(id) {
            Some(sim) => {
                let cost: ResourceCost = if sim.usage_snapshots.len() > 0 {
                    find_peak(&sim.usage_snapshots)
                } else if payload.final_cpu_cores.is_some() || payload.final_memory_gb.is_some() {
                    ResourceCost {
                        cpu_cores: match payload.final_cpu_cores {
                            Some(cpu) => cpu,
                            None => sim.actual_cost.cpu_cores,
                        },
                        memory_gb: match payload.final_memory_gb {
                            Some(memory) => memory,
                            None => sim.actual_cost.memory_gb,
                        },
                        monetary_cost_eur: None,
                    }
                } else {
                    sim.actual_cost
                };
                let last: LastFinishedSimulation = LastFinishedSimulation {
                    simulation_id: id,
                    params: sim.params.clone(),
                    predicted_cost: sim.predicted_cost,
                    actual_cost: cost,
                    finished_at: now,
                    duration_secs: sim.params.duration_secs,
                };
                self.last_finished = Some(last.clone());
                let mut events: Vec<AppEvent> = Vec::new();
                events.push(AppEvent::ActiveUpdated(price_actives(&self.active_list())));
                events.push(AppEvent::LastFinished(last));
                assert(events_view(events@) =~= seq![
                    EventView::ActiveUpdated(priced_actives(self@.running())),
                    EventView::LastFinished(self@.last_finished->0),
                ]);
                let entry: CostHistoryEntry = CostHistoryEntry {
                    chart: sim.params.chart,
                    node_count: sim.params.node_count,
                    duration_secs: sim.params.duration_secs,
                    cpu_cores: cost.cpu_cores,
                    memory_gb: cost.memory_gb,
                    observed_at: now,
                };
                Completion::Finished { events, entry }
            },
            None => Completion::Unknown,
        }
    }
}

} // verus!
