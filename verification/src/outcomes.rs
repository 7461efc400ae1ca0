//! What each call leads to, said of what goes in and what comes out.

use crate::admission::{with_cost, Limits, Projection};
use crate::events::{
    priced_event, priced_queued, stream_of, AppEvent, EventView, ReceivedView,
};
use crate::exact::{comparable, lemma_sum_after_two, lemma_sum_concat, sum_of};
use crate::finish::{after_finish, with_times, FinishedRun};
use crate::laws::peak_is_the_greatest_measurement;
use crate::model::{
    namespace_name, ActiveSimulation, ActiveView, ClusterUtilization, CostHistoryEntry,
    FinishedView, LastFinishedSimulation, QueuedSimulation, QueuedView, ReportCompletePayload,
    ReportStartPayload, ResourceCost, SimulationParamsView, Timestamp, WorkloadView,
};
use crate::nearness::unit;
use crate::outside::hyphenated;
use crate::pages::ReplyView;
use crate::precision::share;
use crate::pricing::{
    default_cost, lookup_usable, monetary_cost, predicted_cost, HistoryLookup, HistoryRow,
};
use crate::queue::{
    admitted, after_admission, after_enqueue, after_enqueue_all, bare, mock_answer, mock_estimate,
    mock_view, release_name, requeued, size_label, MockShape,
};
use crate::registry::{lemma_find, lookup, put_then_lookup, without_then_lookup};
use crate::requests::{
    after_complete, after_request, after_start, approved_costs, cpu_of, cpu_parts, final_cost,
    memory_of, memory_parts, records, remembered_cost, request_answer, started, total_cost,
    Completion,
};
use crate::rounding::INFINITE;
use crate::single::Single;
use crate::state::{dilation, initial, opening_events, with_status, Scheduler, SchedulerView};
use crate::text::{decimal, one_decimal};
use vstd::prelude::*;

verus! {

/// The report of an end of which nothing was measured keeps each amount that it gives, for what
/// finished last and for the cost history, and what was thought before where it gives none.
pub proof fn reported_amounts_are_kept(
    s: SchedulerView,
    sim: ActiveView,
    payload: ReportCompletePayload,
    now: Timestamp,
    entry: CostHistoryEntry,
)
    requires
        lookup(s.pending, payload.simulation_id) is None,
        lookup(s.active, payload.simulation_id) == Some(sim),
        sim.usage_snapshots.len() == 0,
        records(entry, sim.params, final_cost(sim, payload), now),
    ensures
        ({
            let cpu = match payload.final_cpu_cores {
                Some(c) => c,
                None => sim.actual_cost.cpu_cores,
            };
            let memory = match payload.final_memory_gb {
                Some(m) => m,
                None => sim.actual_cost.memory_gb,
            };
            &&& after_complete(s, payload, now).last_finished matches Some(f)
                && f.actual_cost.cpu_cores == cpu && f.actual_cost.memory_gb == memory
                && f.actual_cost.monetary_cost_eur == if payload.final_cpu_cores is None
                && payload.final_memory_gb is None {
                sim.actual_cost.monetary_cost_eur
            } else {
                None
            }
            &&& entry.cpu_cores == cpu
            &&& entry.memory_gb == memory
        }),
{
}

/// The report of an end of which something was measured keeps, for what finished last and for
/// the cost history, the greatest measurement of the cores and of the memory, whatever the
/// report gives. What is not a number counts only where nothing else was measured.
pub proof fn measured_peaks_are_kept(
    s: SchedulerView,
    sim: ActiveView,
    payload: ReportCompletePayload,
    now: Timestamp,
    entry: CostHistoryEntry,
)
    requires
        lookup(s.pending, payload.simulation_id) is None,
        lookup(s.active, payload.simulation_id) == Some(sim),
        sim.usage_snapshots.len() > 0,
        records(entry, sim.params, final_cost(sim, payload), now),
    ensures
        ({
            let snaps = sim.usage_snapshots;
            &&& after_complete(s, payload, now).last_finished matches Some(f)
                && f.actual_cost.cpu_cores == entry.cpu_cores && f.actual_cost.memory_gb
                == entry.memory_gb && f.actual_cost.monetary_cost_eur is None
            &&& exists|i: int| 0 <= i < snaps.len() && (#[trigger] snaps[i]).cpu_cores
                == entry.cpu_cores
            &&& exists|i: int| 0 <= i < snaps.len() && (#[trigger] snaps[i]).memory_gb
                == entry.memory_gb
            &&& forall|i: int|
                0 <= i < snaps.len() && !(#[trigger] snaps[i]).cpu_cores.is_nan()
                    ==> snaps[i].cpu_cores.le(entry.cpu_cores)
            &&& forall|i: int|
                0 <= i < snaps.len() && !(#[trigger] snaps[i]).memory_gb.is_nan()
                    ==> snaps[i].memory_gb.le(entry.memory_gb)
        }),
{
    peak_is_the_greatest_measurement(sim.usage_snapshots);
}

/// What the report of an end leaves: the simulation no longer runs, and is the one that finished
/// last, with its parameters, its prediction and the time of the report; the cost history gets
/// its parameters and that time. Nothing else changes.
pub proof fn complete_closes_one_simulation(
    s: SchedulerView,
    sim: ActiveView,
    payload: ReportCompletePayload,
    now: Timestamp,
    entry: CostHistoryEntry,
    other: u128,
)
    requires
        s.well_formed(),
        lookup(s.pending, payload.simulation_id) is None,
        lookup(s.active, payload.simulation_id) == Some(sim),
        records(entry, sim.params, final_cost(sim, payload), now),
    ensures
        ({
            let t = after_complete(s, payload, now);
            &&& lookup(t.active, payload.simulation_id) is None
            &&& other != payload.simulation_id ==> lookup(t.active, other) == lookup(
                s.active,
                other,
            )
            &&& t.active.len() == s.active.len() - 1
            &&& t.last_finished matches Some(f) && f.simulation_id == payload.simulation_id
                && f.params == sim.params && f.predicted_cost == sim.predicted_cost
                && f.finished_at == now && f.duration_secs == sim.params.duration_secs
            &&& t == (SchedulerView {
                active: t.active,
                last_finished: t.last_finished,
                ..s
            })
            &&& entry.chart@ == sim.params.chart
            &&& entry.node_count == sim.params.node_count
            &&& entry.duration_secs == sim.params.duration_secs
            &&& entry.observed_at == now
        }),
{
    without_then_lookup(s.active, payload.simulation_id, payload.simulation_id);
    without_then_lookup(s.active, payload.simulation_id, other);
    lemma_find(s.active, payload.simulation_id);
}

/// The report of the end of a simulation that was approved and never started takes the approval
/// away, and changes nothing else.
pub proof fn complete_drops_one_approval(
    s: SchedulerView,
    payload: ReportCompletePayload,
    now: Timestamp,
    other: u128,
)
    requires
        s.well_formed(),
        lookup(s.pending, payload.simulation_id) is Some,
    ensures
        ({
            let t = after_complete(s, payload, now);
            &&& lookup(t.pending, payload.simulation_id) is None
            &&& other != payload.simulation_id ==> lookup(t.pending, other) == lookup(
                s.pending,
                other,
            )
            &&& t.pending.len() == s.pending.len() - 1
            &&& t == (SchedulerView { pending: t.pending, ..s })
        }),
{
    without_then_lookup(s.pending, payload.simulation_id, payload.simulation_id);
    without_then_lookup(s.pending, payload.simulation_id, other);
    lemma_find(s.pending, payload.simulation_id);
}

/// A run of the scheduler's own that was measured is kept with its last measurement, however
/// many there are: in the run history, for what finished last and, where the run completed, in
/// the cost history.
pub proof fn last_measurement_is_kept(
    s: SchedulerView,
    known: ActiveView,
    task: ActiveView,
    status: Seq<char>,
    now: Timestamp,
    run: FinishedRun,
)
    requires
        lookup(s.active, task.simulation_id) == Some(known),
        known.usage_snapshots.len() > 0,
        run.closes(with_times(known, task), status, now),
    ensures
        ({
            let last = known.usage_snapshots[known.usage_snapshots.len() - 1];
            &&& run.record.actual_cpu_cores == Some(last.cpu_cores)
            &&& run.record.actual_memory_gb == Some(last.memory_gb)
            &&& after_finish(s, task, now).last_finished matches Some(f)
                && f.actual_cost.cpu_cores == last.cpu_cores && f.actual_cost.memory_gb
                == last.memory_gb && f.actual_cost.monetary_cost_eur is None
            &&& run.entry is Some <==> status == "Completed"@
            &&& run.entry matches Some(entry) ==> entry.cpu_cores == last.cpu_cores
                && entry.memory_gb == last.memory_gb
        }),
{
}

/// A run of the scheduler's own that was not measured is kept without a cost in the run history,
/// teaches the cost history nothing, and finishes last with what it was predicted to cost.
pub proof fn unmeasured_runs_teach_nothing(
    s: SchedulerView,
    known: ActiveView,
    task: ActiveView,
    status: Seq<char>,
    now: Timestamp,
    run: FinishedRun,
)
    requires
        lookup(s.active, task.simulation_id) == Some(known),
        known.usage_snapshots.len() == 0,
        run.closes(with_times(known, task), status, now),
    ensures
        run.record.actual_cpu_cores is None,
        run.record.actual_memory_gb is None,
        run.entry is None,
        after_finish(s, task, now).last_finished matches Some(f) && f.actual_cost
            == known.predicted_cost,
{
}

/// What is kept of a run besides its cost is what the scheduler knows of the simulation, under
/// the status that it ended with, and with the times that its task has taken; what the task has
/// not taken is as it was known, and the end is now where nothing is known of it.
pub proof fn runs_are_kept_as_known(
    s: SchedulerView,
    known: ActiveView,
    task: ActiveView,
    status: Seq<char>,
    now: Timestamp,
    run: FinishedRun,
)
    requires
        lookup(s.active, task.simulation_id) == Some(known),
        known.simulation_id == task.simulation_id,
        run.closes(with_times(known, task), status, now),
    ensures
        ({
            let start = if task.start_time is Some {
                task.start_time
            } else {
                known.start_time
            };
            let end = match (task.end_time, known.end_time) {
                (Some(t), _) => t,
                (None, Some(t)) => t,
                (None, None) => now,
            };
            let r = run.record;
            &&& r.simulation_id@ == hyphenated(task.simulation_id)
            &&& r.request_id@ == hyphenated(known.request_id)
            &&& r.issue_number is Some <==> known.issue_number is Some
            &&& r.issue_number is Some ==> -0x8000_0000_0000_0000 <= r.issue_number->0
                < 0x8000_0000_0000_0000 && (r.issue_number->0 == known.issue_number->0
                || r.issue_number->0 == known.issue_number->0 - 0x1_0000_0000_0000_0000)
            &&& r.status@ == status
            &&& r.chart@ == known.params.chart
            &&& r.node_count == known.params.node_count
            &&& r.duration_secs == known.params.duration_secs
            &&& r.start_time == start
            &&& r.end_time == end
            &&& r.release_name@ == known.release_name
            &&& r.predicted_cpu_cores == known.predicted_cost.cpu_cores
            &&& r.predicted_memory_gb == known.predicted_cost.memory_gb
            &&& r.results_url is None
            &&& run.simulation@ == (ActiveView {
                status: status,
                start_time: start,
                end_time: Some(end),
                ..known
            })
            &&& run.entry matches Some(entry) ==> {
                &&& entry.chart@ == known.params.chart
                &&& entry.node_count == known.params.node_count
                &&& entry.duration_secs == known.params.duration_secs
                &&& entry.observed_at == end
            }
            &&& after_finish(s, task, now).last_finished matches Some(f) && f.simulation_id
                == task.simulation_id && f.params == known.params && f.predicted_cost
                == known.predicted_cost && f.finished_at == end && f.duration_secs
                == known.params.duration_secs
        }),
{
}

/// The end of a run takes that run away and says what finished last; nothing else changes, and
/// nothing at all where no such simulation runs.
pub proof fn finish_closes_one_run(s: SchedulerView, task: ActiveView, now: Timestamp, other: u128)
    requires
        s.well_formed(),
    ensures
        ({
            let t = after_finish(s, task, now);
            &&& lookup(s.active, task.simulation_id) is None ==> t == s
            &&& lookup(s.active, task.simulation_id) is Some ==> t.active.len() == s.active.len()
                - 1 && t.last_finished is Some
            &&& lookup(t.active, task.simulation_id) is None
            &&& other != task.simulation_id ==> lookup(t.active, other) == lookup(s.active, other)
            &&& t == (SchedulerView { active: t.active, last_finished: t.last_finished, ..s })
        }),
{
    lemma_find(s.active, task.simulation_id);
    without_then_lookup(s.active, task.simulation_id, task.simulation_id);
    without_then_lookup(s.active, task.simulation_id, other);
}

/// A simulation that starts runs as the report says, with the cost of its approval; with so much
/// for each node where nothing was approved. What it is thought to have cost is at first what it
/// was predicted to cost, and both have the price of the reported time.
pub proof fn start_is_kept_as_reported(
    s: SchedulerView,
    payload: ReportStartPayload,
    request_id: u128,
    now: Timestamp,
    other: u128,
)
    requires
        s.well_formed(),
    ensures
        ({
            let id = payload.simulation_id;
            let t = after_start(s, payload, request_id, now);
            let params = SimulationParamsView {
                chart: payload.chart@,
                node_count: payload.node_count,
                duration_secs: payload.duration_secs,
            };
            let cost = match lookup(s.pending, id) {
                Some(cost) => cost,
                None => default_cost(params),
            };
            let price = Some(monetary_cost(cost, payload.duration_secs));
            &&& lookup(t.pending, id) is None
            &&& other != id ==> lookup(t.pending, other) == lookup(s.pending, other)
            &&& other != id ==> lookup(t.active, other) == lookup(s.active, other)
            &&& t == (SchedulerView { pending: t.pending, active: t.active, ..s })
            &&& lookup(t.active, id) matches Some(sim) && {
                &&& sim.simulation_id == id
                &&& sim.request_id == request_id
                &&& sim.params == params
                &&& sim.predicted_cost == cost
                &&& sim.actual_cost == cost
                &&& sim.usage_snapshots.len() == 0
                &&& sim.last_snapshot_time == now
                &&& sim.monetary_cost_eur_predicted == price
                &&& sim.monetary_cost_eur_actual == price
                &&& sim.release_name == payload.release_name@
                &&& sim.issue_number is None
                &&& sim.status == "PendingDeployment"@
                &&& sim.start_time is None
                &&& sim.end_time is None
                &&& sim.bootstrap_nodes == 0
                &&& is_empty(sim.workload)
            }
        }),
{
    let id: u128 = payload.simulation_id;
    let t: SchedulerView = after_start(s, payload, request_id, now);
    let cost: ResourceCost = remembered_cost(s, payload);
    let sim: ActiveView = started(payload, cost, request_id, now);
    without_then_lookup(s.pending, id, id);
    without_then_lookup(s.pending, id, other);
    put_then_lookup(s.active, id, sim, id);
    put_then_lookup(s.active, id, sim, other);
}

/// A simulation that leaves the queue to run does so as it was queued, under the new identifier,
/// with the price of its prediction and nothing yet of its actual cost, and with three bootstrap
/// nodes where it does not say how many. Nothing else changes.
pub proof fn admission_is_as_queued(s: SchedulerView, id: u128, now: Timestamp, other: u128)
    requires
        s.well_formed(),
        s.queued.len() > 0,
        after_admission(s, id, now).queued.len() < s.queued.len(),
    ensures
        ({
            let t = after_admission(s, id, now);
            let q = s.queued[0];
            &&& seq![q] + t.queued == s.queued
            &&& other != id ==> lookup(t.active, other) == lookup(s.active, other)
            &&& t == (SchedulerView { queued: t.queued, active: t.active, ..s })
            &&& lookup(t.active, id) matches Some(sim) && {
                &&& sim.simulation_id == id
                &&& sim.request_id == q.request_id
                &&& sim.params == q.params
                &&& sim.predicted_cost == q.predicted_cost
                &&& sim.actual_cost.cpu_cores.value() == 0
                &&& sim.actual_cost.memory_gb.value() == 0
                &&& sim.actual_cost.monetary_cost_eur is None
                &&& sim.usage_snapshots.len() == 0
                &&& sim.last_snapshot_time == now
                &&& sim.monetary_cost_eur_predicted == Some(
                    monetary_cost(q.predicted_cost, q.params.duration_secs),
                )
                &&& sim.monetary_cost_eur_actual is None
                &&& sim.release_name == release_name(q)
                &&& sim.issue_number == q.issue_number
                &&& sim.status == "PendingDeployment"@
                &&& sim.start_time is None
                &&& sim.end_time is None
                &&& sim.bootstrap_nodes == if q.bootstrap_nodes is Some {
                    q.bootstrap_nodes->0
                } else {
                    3
                }
                &&& sim.workload == q.workload
            }
        }),
{
    let sim: ActiveView = admitted(s.queued[0], id, now);
    put_then_lookup(s.active, id, sim, id);
    put_then_lookup(s.active, id, sim, other);
    assert(seq![s.queued[0]] + s.queued.drop_first() =~= s.queued);
}

/// A request that is accepted is remembered under its identifier with the cost that it is
/// predicted to have, and changes nothing else; one that is rejected changes nothing.
pub proof fn acceptance_is_remembered(
    s: SchedulerView,
    params: SimulationParamsView,
    history: HistoryLookup,
    id: u128,
    other: u128,
)
    requires
        s.well_formed(),
    ensures
        ({
            let t = after_request(s, params, history, id);
            let answer = request_answer(s, params, history, id);
            &&& answer.status == "ACCEPTED"@ || answer.status == "REJECTED"@
            &&& answer.simulation_id is Some <==> answer.status == "ACCEPTED"@
            &&& answer.reason is None <==> answer.status == "ACCEPTED"@
            &&& answer.status == "ACCEPTED"@ ==> {
                &&& answer.simulation_id == Some(id)
                &&& lookup(t.pending, id) == Some(predicted_cost(params, history))
                &&& other != id ==> lookup(t.pending, other) == lookup(s.pending, other)
                &&& t == (SchedulerView { pending: t.pending, ..s })
            }
            &&& answer.status == "REJECTED"@ ==> t == s
        }),
{
    reveal_strlit("ACCEPTED");
    reveal_strlit("REJECTED");
    assert("ACCEPTED"@[0] != "REJECTED"@[0]);
    let cost: ResourceCost = predicted_cost(params, history);
    put_then_lookup(s.pending, id, cost, id);
    put_then_lookup(s.pending, id, cost, other);
}

/// A run that is repeated waits behind everything that waits already, under its new identifier,
/// with the configuration of the first run and the given prediction, one at a time. Nothing else
/// changes.
pub proof fn rerun_waits_at_the_end(
    s: SchedulerView,
    original: ActiveView,
    cost: ResourceCost,
    request_id: u128,
)
    ensures
        ({
            let t = after_enqueue(s, requeued(original, cost, request_id));
            let q = t.queued[s.queued.len() as int];
            &&& t.queued.len() == s.queued.len() + 1
            &&& forall|i: int| 0 <= i < s.queued.len() ==> #[trigger] t.queued[i] == s.queued[i]
            &&& t == (SchedulerView { queued: t.queued, ..s })
            &&& q.request_id == request_id
            &&& q.params == original.params
            &&& q.predicted_cost == cost
            &&& q.issue_number == original.issue_number
            &&& q.bootstrap_nodes == Some(original.bootstrap_nodes)
            &&& q.workload == original.workload
            &&& q.parallel_limit == 1
        }),
{
}

/// Simulations that are queued together wait behind everything that waits already, in their
/// order. Nothing else changes.
pub proof fn batches_wait_in_order(s: SchedulerView, batch: Seq<QueuedView>)
    ensures
        ({
            let t = after_enqueue_all(s, batch);
            let n = s.queued.len();
            &&& t.queued.len() == n + batch.len()
            &&& forall|i: int| 0 <= i < n ==> #[trigger] t.queued[i] == s.queued[i]
            &&& forall|i: int|
                n <= i < n + batch.len() ==> #[trigger] t.queued[i] == batch[i - n]
            &&& t == (SchedulerView { queued: t.queued, ..s })
        }),
{
}

/// Made-up simulations are made for every count above zero unless the queue is locked; what is
/// wrong is said with its status.
pub proof fn made_up_simulations_are_refused_for_two_reasons(count: u32, queue_locked: bool)
    ensures
        ({
            let r = mock_answer(count, queue_locked);
            &&& r is None <==> count > 0 && !queue_locked
            &&& count == 0 ==> r == Some(ReplyView { status: 400, text: "count must be > 0"@ })
            &&& count > 0 && queue_locked ==> r == Some(
                ReplyView {
                    status: 503,
                    text: "Queue is currently locked by another operation"@,
                },
            )
        }),
{
}

/// A made-up simulation has the chart, the minutes and the nodes that were drawn for it, a cost
/// that is the observed or the estimated one, the price of that, and nothing else.
pub proof fn made_up_simulations_are_bare(
    shape: MockShape,
    node_count: u32,
    request_id: u128,
    cost: ResourceCost,
)
    requires
        shape.drawn(),
    ensures
        ({
            let params = mock_view(shape, node_count);
            let q = priced_queued(bare(request_id, params, cost));
            &&& 1 <= shape.chart <= 3 && 3 <= shape.minutes <= 15 && shape.step <= 99
            &&& params.chart == "mock-chart-"@ + decimal(shape.chart as nat)
            &&& params.node_count == node_count
            &&& params.duration_secs == 60 * shape.minutes
            &&& q.request_id == request_id
            &&& q.params == params
            &&& q.predicted_cost.cpu_cores == cost.cpu_cores
            &&& q.predicted_cost.memory_gb == cost.memory_gb
            &&& q.predicted_cost.monetary_cost_eur == Some(
                monetary_cost(cost, params.duration_secs),
            )
            &&& q.issue_number is None
            &&& q.bootstrap_nodes is None
            &&& q.parallel_limit == 1
            &&& is_empty(q.workload)
        }),
{
}

/// Whether nothing is said of a deployment.
pub open spec fn is_empty(w: WorkloadView) -> bool {
    &&& w.docker_image.len() == 0
    &&& w.pubsub_topic.len() == 0
    &&& !w.publisher_enabled
    &&& w.publisher_message_size == 0
    &&& w.publisher_delay == 0
    &&& w.publisher_message_count == 0
    &&& !w.artificial_latency
    &&& w.latency_ms == 0
    &&& w.nodes_command is None
    &&& w.bootstrap_command is None
    &&& w.peer_number is None
    &&& w.number_of_peers is None
    &&& w.peers_to_connect is None
    &&& w.message_rate is None
    &&& w.message_size is None
}

/// The estimate for a made-up simulation is so much for each node: 0.18 cores with a part of 0.04
/// less 0.02, and 0.05 gigabytes with a part of 0.02 less 0.01.
pub proof fn estimates_are_spread_around_a_middle(node_count: u32, cpu: Single, memory: Single)
    ensures
        ({
            let r = mock_estimate(node_count, cpu, memory);
            let nodes = Single::of_int(node_count as int);
            &&& r.cpu_cores == nodes.product(
                (Single { bits: 0x3e38_51ec }).sum(
                    cpu.product(Single { bits: 0x3d23_d70a }).difference(
                        Single { bits: 0x3ca3_d70a },
                    ),
                ),
            )
            &&& r.memory_gb == nodes.product(
                (Single { bits: 0x3d4c_cccd }).sum(
                    memory.product(Single { bits: 0x3ca3_d70a }).difference(
                        Single { bits: 0x3c23_d70a },
                    ),
                ),
            )
            &&& r.monetary_cost_eur is None
        }),
{
}

/// An event is passed on as it is, but for the prices: those of the predicted cost of everything
/// that waits, of the predicted and the actual cost of everything that runs, and of both costs of
/// what finished last, each for the time that the simulation is to take.
pub proof fn events_get_their_prices(e: EventView)
    ensures
        match e {
            EventView::QueueUpdated(s) => priced_event(e) matches EventView::QueueUpdated(t)
                && t.len() == s.len() && forall|i: int|
                0 <= i < s.len() ==> #[trigger] t[i] == (QueuedView {
                    predicted_cost: ResourceCost {
                        cpu_cores: s[i].predicted_cost.cpu_cores,
                        memory_gb: s[i].predicted_cost.memory_gb,
                        monetary_cost_eur: Some(
                            monetary_cost(s[i].predicted_cost, s[i].params.duration_secs),
                        ),
                    },
                    ..s[i]
                }),
            EventView::ActiveUpdated(s) => priced_event(e) matches EventView::ActiveUpdated(t)
                && t.len() == s.len() && forall|i: int|
                0 <= i < s.len() ==> #[trigger] t[i] == (ActiveView {
                    monetary_cost_eur_predicted: Some(
                        monetary_cost(s[i].predicted_cost, s[i].params.duration_secs),
                    ),
                    monetary_cost_eur_actual: Some(
                        monetary_cost(s[i].actual_cost, s[i].params.duration_secs),
                    ),
                    ..s[i]
                }),
            EventView::LastFinished(f) => priced_event(e) == EventView::LastFinished(
                FinishedView {
                    predicted_cost: ResourceCost {
                        monetary_cost_eur: Some(
                            monetary_cost(f.predicted_cost, f.duration_secs),
                        ),
                        ..f.predicted_cost
                    },
                    actual_cost: ResourceCost {
                        monetary_cost_eur: Some(monetary_cost(f.actual_cost, f.duration_secs)),
                        ..f.actual_cost
                    },
                    ..f
                },
            ),
            EventView::ClusterUtilizationUpdated(_) => priced_event(e) == e,
            EventView::NamespaceUtilizationUpdated(_) => priced_event(e) == e,
        },
{
}

/// A watcher is first told of everything that waits and runs, of the load, and of what finished
/// last where something has: the same as if each had just changed.
pub proof fn watchers_are_told_the_state(s: SchedulerView)
    ensures
        ({
            let told = opening_events(s);
            let running = Seq::new(s.active.len(), |i: int| s.active[i].1);
            &&& told.len() == if s.last_finished is Some {
                5int
            } else {
                4int
            }
            &&& told[0] == priced_event(EventView::QueueUpdated(s.queued))
            &&& told[1] == priced_event(EventView::ActiveUpdated(running))
            &&& told[2] == EventView::ClusterUtilizationUpdated(s.cluster)
            &&& told[3] == EventView::NamespaceUtilizationUpdated(s.namespace)
            &&& s.last_finished is Some ==> told[4] == priced_event(
                EventView::LastFinished(s.last_finished->0),
            )
        }),
{
    assert(s.running() =~= Seq::new(s.active.len(), |i: int| s.active[i].1));
}

/// What is received next decides what the stream does, whatever was received before: an event is
/// sent with its prices, a loss sends nothing and ends nothing, and the end of the channel ends
/// the stream.
pub proof fn streams_go_on_until_the_end(received: Seq<ReceivedView>, next: ReceivedView)
    ensures
        ({
            let (sent, open) = stream_of(received);
            let after = stream_of(received.push(next));
            &&& stream_of(Seq::empty()) == (Seq::<EventView>::empty(), true)
            &&& !open ==> after == (sent, false)
            &&& open ==> match next {
                ReceivedView::Event(e) => after == (sent.push(priced_event(e)), true),
                ReceivedView::Lagged(_) => after == (sent, true),
                ReceivedView::Closed => after == (sent, false),
            }
        }),
{
    assert(received.push(next).drop_last() =~= received);
}

/// Time is sped up by three, five or ten, and by nothing else.
pub proof fn speeds_are_one_three_five_and_ten(factor: u32)
    ensures
        factor == 1 || factor == 3 || factor == 5 || factor == 10 ==> dilation(factor) == factor,
        factor != 1 && factor != 3 && factor != 5 && factor != 10 ==> dilation(factor) == 1,
{
}

/// A running simulation that gets a new status gets nothing else, and no other one gets it.
pub proof fn a_status_is_all_that_changes(
    s: SchedulerView,
    id: u128,
    status: Seq<char>,
    other: u128,
)
    requires
        s.well_formed(),
    ensures
        ({
            let t = with_status(s, id, status);
            &&& lookup(s.active, id) is None ==> t == s
            &&& lookup(s.active, id) matches Some(sim) ==> lookup(t.active, id) == Some(
                ActiveView { status: status, ..sim },
            )
            &&& other != id ==> lookup(t.active, other) == lookup(s.active, other)
            &&& t.active.len() == s.active.len()
            &&& t == (SchedulerView { active: t.active, ..s })
        }),
{
    lemma_find(s.active, id);
    if lookup(s.active, id) is Some {
        let sim: ActiveView = ActiveView { status: status, ..lookup(s.active, id)->0 };
        put_then_lookup(s.active, id, sim, id);
        put_then_lookup(s.active, id, sim, other);
    }
}

/// The scheduler starts with nothing that waits, runs, was approved or has finished.
pub proof fn the_scheduler_starts_empty(id: u128)
    ensures
        initial().queued.len() == 0,
        lookup(initial().pending, id) is None,
        lookup(initial().active, id) is None,
        initial().last_finished is None,
        initial().time_dilation == 1,
        initial().cluster.used_cpu_cores.value() == 0,
        initial().cluster.used_memory_gb.value() == 0,
        initial().namespace.used_cpu_cores.value() == 0,
        initial().namespace.used_memory_gb.value() == 0,
{
}

/// The name of a release says the chart, the size, the messages and the beginning of the
/// identifier of the request.
pub proof fn release_names_tell_the_simulation(q: QueuedView)
    ensures
        ({
            let name = release_name(q);
            let size = size_label(q.params.node_count);
            let mark = seq![
                hyphenated(q.request_id)[0],
                hyphenated(q.request_id)[1],
                hyphenated(q.request_id)[2],
                hyphenated(q.request_id)[3],
                hyphenated(q.request_id)[4],
                hyphenated(q.request_id)[5],
            ];
            let w = q.workload;
            let rate = if w.message_rate is Some {
                w.message_rate->0 as nat
            } else {
                0
            };
            let bytes = if w.message_size is Some {
                w.message_size->0 as nat
            } else {
                0
            };
            &&& q.params.chart == "waku"@ ==> name == "waku-"@ + size + "-"@ + decimal(
                w.publisher_message_size as nat,
            ) + "mgs-"@ + decimal(w.publisher_delay as nat) + "s-"@ + decimal(
                w.publisher_message_size as nat,
            ) + "kb-"@ + mark
            &&& q.params.chart != "waku"@ ==> name == "nimlibp2p-"@ + size + "-"@ + decimal(rate)
                + "mgs-"@ + decimal(bytes) + "kb-"@ + mark
        }),
{
    let id: Seq<char> = hyphenated(q.request_id);
    assert(id.len() == 36);
    assert(id.subrange(0, 6) =~= seq![id[0], id[1], id[2], id[3], id[4], id[5]]);
}

/// A sum over places.
pub open spec fn total(n: nat, part: spec_fn(int) -> int) -> int
    decreases n,
{
    if n == 0 {
        0
    } else {
        total((n - 1) as nat, part) + part(n - 1)
    }
}

/// The exact sum of numbers is that of their values.
pub proof fn sums_are_of_values(parts: Seq<Single>)
    ensures
        sum_of(parts) == total(parts.len(), |i: int| parts[i].value()),
    decreases parts.len(),
{
    if parts.len() > 0 {
        let front: Seq<Single> = parts.drop_last();
        sums_are_of_values(front);
        lemma_total_same(
            front.len(),
            |i: int| front[i].value(),
            |i: int| parts[i].value(),
        );
    }
}

/// Sums of the same parts are the same.
proof fn lemma_total_same(n: nat, a: spec_fn(int) -> int, b: spec_fn(int) -> int)
    requires
        forall|i: int| 0 <= i < n ==> #[trigger] a(i) == b(i),
    ensures
        total(n, a) == total(n, b),
    decreases n,
{
    if n > 0 {
        lemma_total_same((n - 1) as nat, a, b);
        assert(a(n - 1) == b(n - 1));
    }
}

/// The sum over costs that were approved is that over those that wait for their start and that
/// over those that run.
proof fn lemma_approved_sums(s: SchedulerView)
    ensures
        sum_of(cpu_of(approved_costs(s))) == total(
            s.pending.len(),
            |i: int| s.pending[i].1.cpu_cores.value(),
        ) + total(s.active.len(), |i: int| s.active[i].1.predicted_cost.cpu_cores.value()),
        sum_of(memory_of(approved_costs(s))) == total(
            s.pending.len(),
            |i: int| s.pending[i].1.memory_gb.value(),
        ) + total(s.active.len(), |i: int| s.active[i].1.predicted_cost.memory_gb.value()),
{
    let (p, a): (nat, nat) = (s.pending.len(), s.active.len());
    let pc: Seq<Single> = Seq::new(p, |i: int| s.pending[i].1.cpu_cores);
    let ac: Seq<Single> = Seq::new(a, |i: int| s.active[i].1.predicted_cost.cpu_cores);
    let pm: Seq<Single> = Seq::new(p, |i: int| s.pending[i].1.memory_gb);
    let am: Seq<Single> = Seq::new(a, |i: int| s.active[i].1.predicted_cost.memory_gb);
    assert(cpu_of(approved_costs(s)) =~= pc + ac);
    assert(memory_of(approved_costs(s)) =~= pm + am);
    lemma_sum_concat(pc, ac);
    lemma_sum_concat(pm, am);
    sums_are_of_values(pc);
    sums_are_of_values(ac);
    sums_are_of_values(pm);
    sums_are_of_values(am);
    lemma_total_same(
        p,
        |i: int| pc[i].value(),
        |i: int| s.pending[i].1.cpu_cores.value(),
    );
    lemma_total_same(
        a,
        |i: int| ac[i].value(),
        |i: int| s.active[i].1.predicted_cost.cpu_cores.value(),
    );
    lemma_total_same(
        p,
        |i: int| pm[i].value(),
        |i: int| s.pending[i].1.memory_gb.value(),
    );
    lemma_total_same(
        a,
        |i: int| am[i].value(),
        |i: int| s.active[i].1.predicted_cost.memory_gb.value(),
    );
}

/// What one more simulation makes of the load on the cores, exactly: what is used, what it is
/// predicted to use, what is predicted of everything that was approved and has not started, and
/// what is predicted of everything that runs.
pub open spec fn cpu_load(s: SchedulerView, cost: ResourceCost) -> int {
    s.cluster.used_cpu_cores.value() + cost.cpu_cores.value() + total(
        s.pending.len(),
        |i: int| s.pending[i].1.cpu_cores.value(),
    ) + total(s.active.len(), |i: int| s.active[i].1.predicted_cost.cpu_cores.value())
}

/// What one more simulation makes of the load on the memory, exactly.
pub open spec fn memory_load(s: SchedulerView, cost: ResourceCost) -> int {
    s.cluster.used_memory_gb.value() + cost.memory_gb.value() + total(
        s.pending.len(),
        |i: int| s.pending[i].1.memory_gb.value(),
    ) + total(s.active.len(), |i: int| s.active[i].1.predicted_cost.memory_gb.value())
}

/// Whether all that the load on the cores is made of is finite, and there are cores.
pub open spec fn cpu_is_finite(s: SchedulerView, cost: ResourceCost) -> bool {
    &&& s.cluster.used_cpu_cores.magnitude() < INFINITE
    &&& cost.cpu_cores.magnitude() < INFINITE
    &&& forall|i: int|
        0 <= i < s.pending.len() ==> (#[trigger] s.pending[i]).1.cpu_cores.magnitude() < INFINITE
    &&& forall|i: int|
        0 <= i < s.active.len() ==> (#[trigger] s.active[i]).1.predicted_cost.cpu_cores.magnitude()
            < INFINITE
    &&& s.cluster.total_cpu_cores.magnitude() < INFINITE
    &&& s.cluster.total_cpu_cores.value() > 0
    &&& s.request_limits.cpu_percent.magnitude() < INFINITE
}

/// Whether all that the load on the memory is made of is finite, and there is memory.
pub open spec fn memory_is_finite(s: SchedulerView, cost: ResourceCost) -> bool {
    &&& s.cluster.used_memory_gb.magnitude() < INFINITE
    &&& cost.memory_gb.magnitude() < INFINITE
    &&& forall|i: int|
        0 <= i < s.pending.len() ==> (#[trigger] s.pending[i]).1.memory_gb.magnitude() < INFINITE
    &&& forall|i: int|
        0 <= i < s.active.len() ==> (#[trigger] s.active[i]).1.predicted_cost.memory_gb.magnitude()
            < INFINITE
    &&& s.cluster.total_memory_gb.magnitude() < INFINITE
    &&& s.cluster.total_memory_gb.value() > 0
    &&& s.request_limits.memory_percent.magnitude() < INFINITE
}

/// The parts of the load on the cores are finite where everything in it is.
proof fn lemma_cpu_is_finite(s: SchedulerView, cost: ResourceCost)
    ensures
        cpu_is_finite(s, cost) <==> comparable(
            cpu_parts(s, cost),
            s.cluster.total_cpu_cores,
            s.request_limits.cpu_percent,
        ),
{
    let parts: Seq<Single> = cpu_parts(s, cost);
    let n: int = s.pending.len() as int;
    assert(parts[0] == s.cluster.used_cpu_cores);
    assert(parts[1] == cost.cpu_cores);
    assert forall|i: int| 0 <= i < n implies parts[i + 2] == (
    #[trigger] s.pending[i]).1.cpu_cores by {}
    assert forall|i: int| 0 <= i < s.active.len() implies parts[n + i + 2] == (
    #[trigger] s.active[i]).1.predicted_cost.cpu_cores by {}
    if cpu_is_finite(s, cost) {
        assert forall|i: int| 0 <= i < parts.len() implies (#[trigger] parts[i]).magnitude()
            < INFINITE by {
            if 2 <= i < n + 2 {
                assert(parts[i] == s.pending[i - 2].1.cpu_cores);
            } else if i >= n + 2 {
                assert(parts[i] == s.active[i - n - 2].1.predicted_cost.cpu_cores);
            }
        }
    }
}

/// The parts of the load on the memory are finite where everything in it is.
proof fn lemma_memory_is_finite(s: SchedulerView, cost: ResourceCost)
    ensures
        memory_is_finite(s, cost) <==> comparable(
            memory_parts(s, cost),
            s.cluster.total_memory_gb,
            s.request_limits.memory_percent,
        ),
{
    let parts: Seq<Single> = memory_parts(s, cost);
    let n: int = s.pending.len() as int;
    assert(parts[0] == s.cluster.used_memory_gb);
    assert(parts[1] == cost.memory_gb);
    assert forall|i: int| 0 <= i < n implies parts[i + 2] == (
    #[trigger] s.pending[i]).1.memory_gb by {}
    assert forall|i: int| 0 <= i < s.active.len() implies parts[n + i + 2] == (
    #[trigger] s.active[i]).1.predicted_cost.memory_gb by {}
    if memory_is_finite(s, cost) {
        assert forall|i: int| 0 <= i < parts.len() implies (#[trigger] parts[i]).magnitude()
            < INFINITE by {
            if 2 <= i < n + 2 {
                assert(parts[i] == s.pending[i - 2].1.memory_gb);
            } else if i >= n + 2 {
                assert(parts[i] == s.active[i - n - 2].1.predicted_cost.memory_gb);
            }
        }
    }
}

/// A request is accepted exactly where what is used, what it is predicted to use, what is
/// predicted of everything that was approved and has not started, and what is predicted of
/// everything that runs are together at most the limit's share of all cores, and the same of the
/// memory. Where something of it is not finite, or the cluster has nothing, the rounded share
/// decides. A rejection names the limits that would be exceeded, with the share of the whole load.
pub proof fn requests_are_held_against_the_whole_load(
    s: SchedulerView,
    params: SimulationParamsView,
    history: HistoryLookup,
    id: u128,
)
    ensures
        ({
            let cost = predicted_cost(params, history);
            let (c, l) = (s.cluster, s.request_limits);
            let load = total_cost(cost, approved_costs(s));
            let shares = Projection {
                cpu_percent: share(c.used_cpu_cores, load.cpu_cores, c.total_cpu_cores),
                memory_percent: share(c.used_memory_gb, load.memory_gb, c.total_memory_gb),
            };
            let cpu_ok = if cpu_is_finite(s, cost) {
                100 * cpu_load(s, cost) * unit() <= l.cpu_percent.value()
                    * c.total_cpu_cores.value()
            } else {
                shares.cpu_percent.le(l.cpu_percent)
            };
            let memory_ok = if memory_is_finite(s, cost) {
                100 * memory_load(s, cost) * unit() <= l.memory_percent.value()
                    * c.total_memory_gb.value()
            } else {
                shares.memory_percent.le(l.memory_percent)
            };
            let answer = request_answer(s, params, history, id);
            &&& answer.status == "ACCEPTED"@ <==> cpu_ok && memory_ok
            &&& answer.reason == shares.reasons(l, cpu_ok, memory_ok)
        }),
{
    let cost: ResourceCost = predicted_cost(params, history);
    let approved: Seq<ResourceCost> = approved_costs(s);
    lemma_cpu_is_finite(s, cost);
    lemma_memory_is_finite(s, cost);
    lemma_approved_sums(s);
    lemma_sum_after_two(s.cluster.used_cpu_cores, cost.cpu_cores, cpu_of(approved));
    lemma_sum_after_two(s.cluster.used_memory_gb, cost.memory_gb, memory_of(approved));
    reveal_strlit("ACCEPTED");
    reveal_strlit("REJECTED");
    assert("ACCEPTED"@[0] != "REJECTED"@[0]);
}

/// A refusal to let the head of the queue run names the limits whose rounded shares would be
/// exceeded.
pub proof fn the_queue_says_what_is_exceeded(
    cluster: ClusterUtilization,
    cost: ResourceCost,
    limits: Limits,
)
    ensures
        ({
            let cpu = share(cluster.used_cpu_cores, cost.cpu_cores, cluster.total_cpu_cores);
            let memory = share(cluster.used_memory_gb, cost.memory_gb, cluster.total_memory_gb);
            with_cost(cluster, cost).excess(limits) == (Projection {
                cpu_percent: cpu,
                memory_percent: memory,
            }).reasons(limits, cpu.le(limits.cpu_percent), memory.le(limits.memory_percent))
        }),
{
}

/// A rejection names each limit that would be exceeded and no other, the one on the cores first,
/// with the limit and the share that would be reached.
pub proof fn rejections_name_what_is_exceeded(
    projection: Projection,
    limits: Limits,
    cpu_ok: bool,
    memory_ok: bool,
)
    ensures
        ({
            let r = projection.reasons(limits, cpu_ok, memory_ok);
            let cpu = "CPU limit ("@ + one_decimal(limits.cpu_percent)
                + "%) would be exceeded ("@ + one_decimal(projection.cpu_percent) + "%)"@;
            let memory = "Memory limit ("@ + one_decimal(limits.memory_percent)
                + "%) would be exceeded ("@ + one_decimal(projection.memory_percent) + "%)"@;
            &&& cpu_ok && memory_ok ==> r is None
            &&& !cpu_ok && memory_ok ==> r == Some(cpu)
            &&& cpu_ok && !memory_ok ==> r == Some(memory)
            &&& !cpu_ok && !memory_ok ==> r == Some(cpu + ", "@ + memory)
        }),
{
    reveal_strlit("CPU");
    reveal_strlit("Memory");
    reveal_strlit(" limit (");
    reveal_strlit("CPU limit (");
    reveal_strlit("Memory limit (");
    assert("CPU"@ + " limit ("@ =~= "CPU limit ("@);
    assert("Memory"@ + " limit ("@ =~= "Memory limit ("@);
}

/// The shares that a refusal gives are those of what is used with what is predicted.
pub proof fn shares_are_of_the_totals(cluster: ClusterUtilization, cost: ResourceCost)
    ensures
        with_cost(cluster, cost).cpu_percent == share(
            cluster.used_cpu_cores,
            cost.cpu_cores,
            cluster.total_cpu_cores,
        ),
        with_cost(cluster, cost).memory_percent == share(
            cluster.used_memory_gb,
            cost.memory_gb,
            cluster.total_memory_gb,
        ),
{
}

/// What has been approved is everything that waits for its start and everything that runs, each
/// with its predicted cost.
pub proof fn approved_costs_are_all_predictions(s: SchedulerView)
    ensures
        approved_costs(s).len() == s.pending.len() + s.active.len(),
        forall|i: int|
            0 <= i < s.pending.len() ==> #[trigger] approved_costs(s)[i] == s.pending[i].1,
        forall|i: int|
            0 <= i < s.active.len() ==> approved_costs(s)[s.pending.len() + i] == (
            #[trigger] s.active[i]).1.predicted_cost,
{
}

/// Costs are added up one after the other, the cores and the memory each on their own.
pub proof fn costs_add_up(cost: ResourceCost, further: Seq<ResourceCost>, one_more: ResourceCost)
    ensures
        total_cost(cost, Seq::empty()) == cost,
        total_cost(cost, further.push(one_more)).cpu_cores == total_cost(
            cost,
            further,
        ).cpu_cores.sum(one_more.cpu_cores),
        total_cost(cost, further.push(one_more)).memory_gb == total_cost(
            cost,
            further,
        ).memory_gb.sum(one_more.memory_gb),
{
    assert(further.push(one_more).drop_last() =~= further);
}

/// What is said of a queued simulation is said of all its fields.
pub proof fn queued_simulations_show_every_field(q: QueuedSimulation)
    ensures
        q@.request_id == q.request_id,
        q@.params.chart == q.params.chart@,
        q@.params.node_count == q.params.node_count,
        q@.params.duration_secs == q.params.duration_secs,
        q@.predicted_cost == q.predicted_cost,
        q@.issue_number == q.issue_number,
        q@.bootstrap_nodes == q.bootstrap_nodes,
        q@.parallel_limit == q.parallel_limit,
        q@.workload.docker_image == q.docker_image@,
        q@.workload.pubsub_topic == q.pubsub_topic@,
        q@.workload.publisher_enabled == q.publisher_enabled,
        q@.workload.publisher_message_size == q.publisher_message_size,
        q@.workload.publisher_delay == q.publisher_delay,
        q@.workload.publisher_message_count == q.publisher_message_count,
        q@.workload.artificial_latency == q.artificial_latency,
        q@.workload.latency_ms == q.latency_ms,
        q@.workload.nodes_command is Some <==> q.nodes_command is Some,
        q.nodes_command is Some ==> q@.workload.nodes_command == Some(q.nodes_command->0@),
        q@.workload.bootstrap_command is Some <==> q.bootstrap_command is Some,
        q.bootstrap_command is Some ==> q@.workload.bootstrap_command == Some(
            q.bootstrap_command->0@,
        ),
        q@.workload.peer_number == q.peer_number,
        q@.workload.number_of_peers == q.number_of_peers,
        q@.workload.peers_to_connect == q.peers_to_connect,
        q@.workload.message_rate == q.message_rate,
        q@.workload.message_size == q.message_size,
{
}

/// What is said of a running simulation is said of all its fields.
pub proof fn active_simulations_show_every_field(a: ActiveSimulation)
    ensures
        a@.simulation_id == a.simulation_id,
        a@.request_id == a.request_id,
        a@.params.chart == a.params.chart@,
        a@.params.node_count == a.params.node_count,
        a@.params.duration_secs == a.params.duration_secs,
        a@.predicted_cost == a.predicted_cost,
        a@.actual_cost == a.actual_cost,
        a@.usage_snapshots == a.usage_snapshots@,
        a@.last_snapshot_time == a.last_snapshot_time,
        a@.monetary_cost_eur_predicted == a.monetary_cost_eur_predicted,
        a@.monetary_cost_eur_actual == a.monetary_cost_eur_actual,
        a@.release_name == a.release_name@,
        a@.issue_number == a.issue_number,
        a@.status == a.status@,
        a@.start_time == a.start_time,
        a@.end_time == a.end_time,
        a@.bootstrap_nodes == a.bootstrap_nodes,
        a@.workload.docker_image == a.docker_image@,
        a@.workload.pubsub_topic == a.pubsub_topic@,
        a@.workload.publisher_enabled == a.publisher_enabled,
        a@.workload.publisher_message_size == a.publisher_message_size,
        a@.workload.publisher_delay == a.publisher_delay,
        a@.workload.publisher_message_count == a.publisher_message_count,
        a@.workload.artificial_latency == a.artificial_latency,
        a@.workload.latency_ms == a.latency_ms,
        a@.workload.nodes_command is Some <==> a.nodes_command is Some,
        a.nodes_command is Some ==> a@.workload.nodes_command == Some(a.nodes_command->0@),
        a@.workload.bootstrap_command is Some <==> a.bootstrap_command is Some,
        a.bootstrap_command is Some ==> a@.workload.bootstrap_command == Some(
            a.bootstrap_command->0@,
        ),
        a@.workload.peer_number == a.peer_number,
        a@.workload.number_of_peers == a.number_of_peers,
        a@.workload.peers_to_connect == a.peers_to_connect,
        a@.workload.message_rate == a.message_rate,
        a@.workload.message_size == a.message_size,
{
}

/// What is said of what finished last is said of all its fields.
pub proof fn finished_simulations_show_every_field(f: LastFinishedSimulation)
    ensures
        f@.simulation_id == f.simulation_id,
        f@.params.chart == f.params.chart@,
        f@.params.node_count == f.params.node_count,
        f@.params.duration_secs == f.params.duration_secs,
        f@.predicted_cost == f.predicted_cost,
        f@.actual_cost == f.actual_cost,
        f@.finished_at == f.finished_at,
        f@.duration_secs == f.duration_secs,
{
}

/// What is said of the scheduler is said of everything that it holds, in its order.
pub proof fn the_scheduler_shows_everything(s: Scheduler)
    ensures
        s@.queued.len() == s.queued@.len(),
        forall|i: int| 0 <= i < s.queued@.len() ==> #[trigger] s@.queued[i] == s.queued@[i]@,
        s@.pending == s.pending@,
        s@.active == s.active@,
        s@.last_finished is Some <==> s.last_finished is Some,
        s.last_finished is Some ==> s@.last_finished == Some(s.last_finished->0@),
        s@.cluster == s.cluster,
        s@.namespace == s.namespace,
        s@.time_dilation == s.time_dilation,
        s@.request_limits == s.request_limits,
        s@.queue_limits == s.queue_limits,
{
}

/// What is said of an event is said of all that it tells of.
pub proof fn events_show_everything(e: AppEvent)
    ensures
        match e {
            AppEvent::QueueUpdated(v) => e@ matches EventView::QueueUpdated(t) && t.len()
                == v@.len() && forall|i: int| 0 <= i < v@.len() ==> #[trigger] t[i] == v@[i]@,
            AppEvent::ActiveUpdated(v) => e@ matches EventView::ActiveUpdated(t) && t.len()
                == v@.len() && forall|i: int| 0 <= i < v@.len() ==> #[trigger] t[i] == v@[i]@,
            AppEvent::LastFinished(f) => e@ == EventView::LastFinished(f@),
            AppEvent::ClusterUtilizationUpdated(c) => e@
                == EventView::ClusterUtilizationUpdated(c),
            AppEvent::NamespaceUtilizationUpdated(n) => e@
                == EventView::NamespaceUtilizationUpdated(n),
        },
{
}

/// The report of an end is answered with 404 where the simulation is not known, and with 200
/// otherwise.
pub proof fn unknown_ends_are_not_found(c: Completion)
    ensures
        c is Unknown ==> c.status_code() == 404,
        c !is Unknown ==> c.status_code() == 200,
{
}

/// The simulations run in their own namespace.
pub proof fn the_namespace_is_named()
    ensures
        namespace_name() == "larstesting"@,
{
}

/// The shapes that can be drawn: steps below one hundred, three to fifteen minutes, and one of
/// three charts.
pub proof fn drawn_shapes(shape: MockShape)
    ensures
        shape.drawn() <==> shape.step <= 99 && 3 <= shape.minutes <= 15 && 1 <= shape.chart <= 3,
{
}

/// A prediction can be made of whatever the history holds for the size itself, of nothing, and of
/// a failure to ask.
pub proof fn predictions_need_one_complete_entry(
    row: HistoryRow,
    node_count: u32,
    cause: String,
)
    ensures
        row.em_cpu is Some && row.em_mem is Some ==> lookup_usable(Ok(Some(row)), node_count),
        row.cl_nodes is None && row.ch_nodes is None ==> lookup_usable(Ok(Some(row)), node_count),
        lookup_usable(Ok(None), node_count),
        lookup_usable(Err(cause), node_count),
{
}

/// What is not finite is written by its name.
pub proof fn what_is_not_finite_is_named(x: Single)
    ensures
        x.is_nan() ==> one_decimal(x) == "NaN"@,
        x.is_infinite() && x.negative() ==> one_decimal(x) == "-"@ + "inf"@,
        x.is_infinite() && !x.negative() ==> one_decimal(x) == "inf"@,
{
    assert(Seq::<char>::empty() + "inf"@ =~= "inf"@);
}

} // verus!
