//! What holds of the scheduler across several calls.

use crate::admission::with_cost;
use crate::exact::{all_finite, comparable, lemma_sum_after_two, sum_of};
use crate::finish::{after_finish, end_of, measured_or_predicted, with_times};
use crate::model::{
    ActiveView, ClusterUtilization, QueuedView, ReportCompletePayload, ReportStartPayload,
    ResourceCost, ResourceSnapshot, SimulationParamsView, Timestamp,
};
use crate::order::{
    all_amounts, lemma_kept_targets_are_finite, lemma_target_with_less, measurable,
    more_costs_more, none_below_all,
};
use crate::outside::{
    digit_place, hex_digit, hex_number, hex_value, hyphenated, uuid_number,
};
use crate::pricing::{default_cost, predicted_cost, HistoryLookup, HistoryRow};
use crate::queue::{
    admits_next, admitted, after_admission, after_enqueue, requeued,
};
use crate::registry::{
    distinct, find, lemma_find, lookup, put, put_then_lookup, put_then_without, without,
    without_then_lookup,
};
use crate::requests::{
    after_complete, after_request, after_start, approved_costs, approves, cpu_of, cpu_parts,
    final_cost, finished, memory_of, memory_parts, peak_usage, remembered_cost, request_answer,
    request_projection, started, total_cost,
};
use crate::rounding::INFINITE;
use crate::state::{dilation, initial, is_dilation, with_status, SchedulerView};
use vstd::arithmetic::div_mod::{lemma_basic_div, lemma_div_denominator};
use vstd::arithmetic::power2::{
    lemma2_to64, lemma2_to64_rest, lemma_pow2_adds, lemma_pow2_pos, pow2,
};
use vstd::multiset::Multiset;
use vstd::prelude::*;
use vstd::seq_lib::to_multiset_insert;

verus! {

/// Each simulation that runs stands under its own identifier, also after one more was put.
proof fn lemma_put_own(s: Seq<(u128, ActiveView)>, id: u128, sim: ActiveView)
    requires
        distinct(s),
        forall|i: int| 0 <= i < s.len() ==> (#[trigger] s[i]).1.simulation_id == s[i].0,
        sim.simulation_id == id,
    ensures
        distinct(put(s, id, sim)),
        forall|i: int|
            0 <= i < put(s, id, sim).len() ==> (#[trigger] put(s, id, sim)[i]).1.simulation_id
                == put(s, id, sim)[i].0,
{
    put_then_lookup(s, id, sim, id);
    lemma_find(s, id);
    let t: Seq<(u128, ActiveView)> = put(s, id, sim);
    assert forall|i: int| 0 <= i < t.len() implies (#[trigger] t[i]).1.simulation_id == t[i].0 by {
        if i < s.len() {
            assert(s[i].1.simulation_id == s[i].0);
        }
    }
}

/// The same after one was taken out.
proof fn lemma_without_own(s: Seq<(u128, ActiveView)>, id: u128)
    requires
        distinct(s),
        forall|i: int| 0 <= i < s.len() ==> (#[trigger] s[i]).1.simulation_id == s[i].0,
    ensures
        distinct(without(s, id)),
        forall|i: int|
            0 <= i < without(s, id).len() ==> (#[trigger] without(s, id)[i]).1.simulation_id
                == without(s, id)[i].0,
{
    without_then_lookup(s, id, id);
    lemma_find(s, id);
    let t: Seq<(u128, ActiveView)> = without(s, id);
    assert forall|i: int| 0 <= i < t.len() implies (#[trigger] t[i]).1.simulation_id == t[i].0 by {
        match find(s, id) {
            Some(at) => {
                let k: int = if i < at {
                    i
                } else {
                    i + 1
                };
                assert(t[i] == s[k]);
            },
            None => {},
        }
    }
}

/// The state that the scheduler starts in is well formed.
pub proof fn initial_is_well_formed()
    ensures
        initial().well_formed(),
{
}

/// A request keeps the state well formed.
pub proof fn request_keeps_well_formed(
    s: SchedulerView,
    params: SimulationParamsView,
    history: HistoryLookup,
    id: u128,
)
    requires
        s.well_formed(),
    ensures
        after_request(s, params, history, id).well_formed(),
{
    put_then_lookup(s.pending, id, predicted_cost(params, history), id);
}

/// The report of a start keeps the state well formed.
pub proof fn start_keeps_well_formed(
    s: SchedulerView,
    payload: ReportStartPayload,
    request_id: u128,
    now: Timestamp,
)
    requires
        s.well_formed(),
    ensures
        after_start(s, payload, request_id, now).well_formed(),
{
    let id: u128 = payload.simulation_id;
    without_then_lookup(s.pending, id, id);
    lemma_put_own(s.active, id, started(payload, remembered_cost(s, payload), request_id, now));
}

/// The report of an end keeps the state well formed.
pub proof fn complete_keeps_well_formed(
    s: SchedulerView,
    payload: ReportCompletePayload,
    now: Timestamp,
)
    requires
        s.well_formed(),
    ensures
        after_complete(s, payload, now).well_formed(),
{
    without_then_lookup(s.pending, payload.simulation_id, payload.simulation_id);
    lemma_without_own(s.active, payload.simulation_id);
}

/// An admission keeps the state well formed.
pub proof fn admission_keeps_well_formed(s: SchedulerView, id: u128, now: Timestamp)
    requires
        s.well_formed(),
    ensures
        after_admission(s, id, now).well_formed(),
{
    if admits_next(s) {
        lemma_put_own(s.active, id, admitted(s.queued[0], id, now));
    }
}

/// A new status keeps the state well formed.
pub proof fn status_keeps_well_formed(s: SchedulerView, id: u128, status: Seq<char>)
    requires
        s.well_formed(),
    ensures
        with_status(s, id, status).well_formed(),
{
    lemma_find(s.active, id);
    match lookup(s.active, id) {
        Some(sim) => {
            assert(s.active[find(s.active, id)->0].1.simulation_id == id);
            lemma_put_own(s.active, id, ActiveView { status: status, ..sim });
        },
        None => {},
    }
}

/// The end of a simulation keeps the state well formed.
pub proof fn finish_keeps_well_formed(s: SchedulerView, task: ActiveView, now: Timestamp)
    requires
        s.well_formed(),
    ensures
        after_finish(s, task, now).well_formed(),
{
    lemma_without_own(s.active, task.simulation_id);
}

/// A request is either accepted, with an identifier and without a reason, or rejected, with a
/// reason and without an identifier; a rejected one changes nothing.
pub proof fn every_request_is_answered(
    s: SchedulerView,
    params: SimulationParamsView,
    history: HistoryLookup,
    id: u128,
)
    ensures
        ({
            let answer = request_answer(s, params, history, id);
            if approves(s, params, history) {
                &&& answer.status == "ACCEPTED"@
                &&& answer.simulation_id == Some(id)
                &&& answer.reason is None
                &&& lookup(after_request(s, params, history, id).pending, id) is Some
            } else {
                &&& answer.status == "REJECTED"@
                &&& answer.simulation_id is None
                &&& answer.reason is Some
                &&& after_request(s, params, history, id) == s
            }
        }),
{
    if approves(s, params, history) {
        let t: Seq<(u128, ResourceCost)> = after_request(s, params, history, id).pending;
        lemma_find(s.pending, id);
        lemma_find(t, id);
        match find(s.pending, id) {
            Some(i) => {
                assert(t[i].0 == id);
            },
            None => {
                assert(t[t.len() - 1].0 == id);
            },
        }
    }
}

/// A request is approved exactly where what is measured, what it is predicted to cost, and what
/// has been approved before are together at most the limits of what the cluster has. Nothing is
/// rounded: a load that equals its limit is within it, and one above it by however little is
/// not.
pub proof fn approved_load_is_within_limits(
    s: SchedulerView,
    params: SimulationParamsView,
    history: HistoryLookup,
)
    requires
        ({
            let cost = predicted_cost(params, history);
            let (c, l) = (s.cluster, s.request_limits);
            &&& comparable(cpu_parts(s, cost), c.total_cpu_cores, l.cpu_percent)
            &&& comparable(memory_parts(s, cost), c.total_memory_gb, l.memory_percent)
        }),
    ensures
        ({
            let cost = predicted_cost(params, history);
            let approved = approved_costs(s);
            let (c, l) = (s.cluster, s.request_limits);
            let cpu = c.used_cpu_cores.value() + cost.cpu_cores.value() + sum_of(cpu_of(approved));
            let memory = c.used_memory_gb.value() + cost.memory_gb.value() + sum_of(
                memory_of(approved),
            );
            approves(s, params, history) <==> {
                &&& 100 * cpu * pow2(149) <= l.cpu_percent.value() * c.total_cpu_cores.value()
                &&& 100 * memory * pow2(149) <= l.memory_percent.value()
                    * c.total_memory_gb.value()
            }
        }),
{
    let cost: ResourceCost = predicted_cost(params, history);
    let approved: Seq<ResourceCost> = approved_costs(s);
    lemma_sum_after_two(
        s.cluster.used_cpu_cores,
        cost.cpu_cores,
        cpu_of(approved),
    );
    lemma_sum_after_two(
        s.cluster.used_memory_gb,
        cost.memory_gb,
        memory_of(approved),
    );
}

/// No approved load is above a limit: a load with a part that is infinite or not a number is
/// refused. The cluster has something finite of everything, the limits are finite, and nothing
/// is minus infinity.
pub proof fn approved_load_never_exceeds_limits(
    s: SchedulerView,
    params: SimulationParamsView,
    history: HistoryLookup,
)
    requires
        ({
            let cost = predicted_cost(params, history);
            let (c, l) = (s.cluster, s.request_limits);
            &&& none_below_all(cpu_parts(s, cost))
            &&& none_below_all(memory_parts(s, cost))
            &&& c.total_cpu_cores.magnitude() < INFINITE && c.total_cpu_cores.value() > 0
            &&& c.total_memory_gb.magnitude() < INFINITE && c.total_memory_gb.value() > 0
            &&& l.cpu_percent.magnitude() < INFINITE
            &&& l.memory_percent.magnitude() < INFINITE
        }),
        approves(s, params, history),
    ensures
        ({
            let cost = predicted_cost(params, history);
            let (c, l) = (s.cluster, s.request_limits);
            &&& all_finite(cpu_parts(s, cost))
            &&& all_finite(memory_parts(s, cost))
            &&& 100 * sum_of(cpu_parts(s, cost)) * pow2(149) <= l.cpu_percent.value()
                * c.total_cpu_cores.value()
            &&& 100 * sum_of(memory_parts(s, cost)) * pow2(149) <= l.memory_percent.value()
                * c.total_memory_gb.value()
        }),
{
    lemma_kept_targets_are_finite(s, predicted_cost(params, history));
}

/// A simulation that starts is known with the cost that was predicted when it was approved.
pub proof fn start_remembers_the_prediction(
    s: SchedulerView,
    params: SimulationParamsView,
    history: HistoryLookup,
    start: ReportStartPayload,
    request_id: u128,
    now: Timestamp,
)
    requires
        s.well_formed(),
        approves(s, params, history),
    ensures
        ({
            let id = start.simulation_id;
            let t = after_start(after_request(s, params, history, id), start, request_id, now);
            &&& lookup(t.pending, id) is None
            &&& lookup(t.active, id) matches Some(sim) && sim.predicted_cost == predicted_cost(
                params,
                history,
            ) && sim.actual_cost == predicted_cost(params, history)
        }),
{
    let id: u128 = start.simulation_id;
    let cost: ResourceCost = predicted_cost(params, history);
    let r: SchedulerView = after_request(s, params, history, id);
    put_then_lookup(s.pending, id, cost, id);
    without_then_lookup(r.pending, id, id);
    put_then_lookup(r.active, id, started(start, cost, request_id, now), id);
}

/// The end of a simulation that never started takes its approval back: the scheduler is as if
/// nothing had been asked.
pub proof fn complete_undoes_an_unused_approval(
    s: SchedulerView,
    params: SimulationParamsView,
    history: HistoryLookup,
    complete: ReportCompletePayload,
    now: Timestamp,
)
    requires
        lookup(s.pending, complete.simulation_id) is None,
    ensures
        after_complete(
            after_request(s, params, history, complete.simulation_id),
            complete,
            now,
        ) == if approves(s, params, history) {
            s
        } else {
            after_complete(s, complete, now)
        },
{
    let id: u128 = complete.simulation_id;
    if approves(s, params, history) {
        every_request_is_answered(s, params, history, id);
        put_then_without(s.pending, id, predicted_cost(params, history));
    }
}

/// The end of a simulation that has started leaves nothing of it but the memory of what
/// finished last, with the costs that it was predicted to have and had.
pub proof fn complete_undoes_a_start(
    s: SchedulerView,
    start: ReportStartPayload,
    complete: ReportCompletePayload,
    request_id: u128,
    began: Timestamp,
    now: Timestamp,
)
    requires
        s.well_formed(),
        start.simulation_id == complete.simulation_id,
        lookup(s.active, start.simulation_id) is None,
    ensures
        ({
            let cost = remembered_cost(s, start);
            let sim = started(start, cost, request_id, began);
            let t = after_complete(after_start(s, start, request_id, began), complete, now);
            &&& t == (SchedulerView {
                pending: without(s.pending, start.simulation_id),
                last_finished: Some(finished(sim, final_cost(sim, complete), now)),
                ..s
            })
            &&& t.last_finished->0.predicted_cost == cost
            &&& complete.final_cpu_cores is None && complete.final_memory_gb is None
                ==> t.last_finished->0.actual_cost == cost
        }),
{
    let id: u128 = start.simulation_id;
    let sim: ActiveView = started(start, remembered_cost(s, start), request_id, began);
    without_then_lookup(s.pending, id, id);
    put_then_lookup(s.active, id, sim, id);
    put_then_without(s.active, id, sim);
}

/// The end of a simulation that is neither approved nor running changes nothing, and a second
/// report of the same end is about such a simulation.
pub proof fn unknown_ends_change_nothing(
    s: SchedulerView,
    complete: ReportCompletePayload,
    now: Timestamp,
    later: Timestamp,
)
    requires
        s.well_formed(),
        lookup(s.pending, complete.simulation_id) is None || lookup(
            s.active,
            complete.simulation_id,
        ) is None,
    ensures
        lookup(s.pending, complete.simulation_id) is None && lookup(
            s.active,
            complete.simulation_id,
        ) is None ==> after_complete(s, complete, now) == s,
        after_complete(after_complete(s, complete, now), complete, later) == after_complete(
            s,
            complete,
            now,
        ),
{
    without_then_lookup(s.pending, complete.simulation_id, complete.simulation_id);
    without_then_lookup(s.active, complete.simulation_id, complete.simulation_id);
}

/// Where nothing has been approved, a request is held against what is measured and its own
/// predicted cost alone.
pub proof fn nothing_approved_counts_nothing(s: SchedulerView, cost: ResourceCost)
    requires
        s.pending.len() == 0,
        s.active.len() == 0,
    ensures
        request_projection(s, cost) == with_cost(s.cluster, cost),
        cpu_parts(s, cost) == seq![s.cluster.used_cpu_cores, cost.cpu_cores],
        memory_parts(s, cost) == seq![s.cluster.used_memory_gb, cost.memory_gb],
{
    assert(approved_costs(s).len() == 0);
    assert(cpu_parts(s, cost) =~= seq![s.cluster.used_cpu_cores, cost.cpu_cores]);
    assert(memory_parts(s, cost) =~= seq![s.cluster.used_memory_gb, cost.memory_gb]);
}

/// An approval counts: its predicted cost is among those that later requests are held against.
pub proof fn approval_reserves_its_cost(
    s: SchedulerView,
    params: SimulationParamsView,
    history: HistoryLookup,
    id: u128,
)
    requires
        approves(s, params, history),
        lookup(s.pending, id) is None,
    ensures
        approved_costs(after_request(s, params, history, id)).to_multiset() == approved_costs(
            s,
        ).to_multiset().insert(predicted_cost(params, history)),
{
    let t: SchedulerView = after_request(s, params, history, id);
    let cost: ResourceCost = predicted_cost(params, history);
    let p: Seq<ResourceCost> = Seq::new(s.pending.len(), |i: int| s.pending[i].1);
    let a: Seq<ResourceCost> = Seq::new(s.active.len(), |i: int| s.active[i].1.predicted_cost);
    assert(approved_costs(t) =~= p.push(cost) + a);
    vstd::seq_lib::lemma_multiset_commutative(p.push(cost), a);
    vstd::seq_lib::lemma_multiset_commutative(p, a);
    p.to_multiset_ensures();
    assert((p.push(cost) + a).to_multiset() =~= (p + a).to_multiset().insert(cost));
}

/// Approvals only ever take room away: a request that is approved on top of one more approval
/// would have been approved without it.
pub proof fn approvals_leave_no_more_room(
    s: SchedulerView,
    other: SimulationParamsView,
    other_history: HistoryLookup,
    other_id: u128,
    params: SimulationParamsView,
    history: HistoryLookup,
)
    requires
        measurable(s.cluster),
        all_amounts(approved_costs(s)),
        predicted_cost(other, other_history).in_amounts(),
        predicted_cost(params, history).in_amounts(),
        lookup(s.pending, other_id) is None,
        approves(after_request(s, other, other_history, other_id), params, history),
    ensures
        approves(s, params, history),
{
    if approves(s, other, other_history) {
        let t: SchedulerView = after_request(s, other, other_history, other_id);
        let cost: ResourceCost = predicted_cost(params, history);
        let one_more: ResourceCost = predicted_cost(other, other_history);
        let p: Seq<ResourceCost> = Seq::new(s.pending.len(), |i: int| s.pending[i].1);
        let a: Seq<ResourceCost> = Seq::new(s.active.len(), |i: int| s.active[i].1.predicted_cost);
        assert(approved_costs(t) =~= p.push(one_more) + a);
        assert forall|i: int| 0 <= i < p.len() implies (#[trigger] p[i]).in_amounts() by {
            assert(approved_costs(s)[i] == p[i]);
        }
        assert forall|i: int| 0 <= i < a.len() implies (#[trigger] a[i]).in_amounts() by {
            assert(approved_costs(s)[p.len() + i] == a[i]);
        }
        more_costs_more(cost, p, one_more, a);
        let more: ResourceCost = total_cost(cost, p.push(one_more) + a);
        let less: ResourceCost = total_cost(cost, p + a);
        assert(approved_costs(s) =~= p + a);
        assert(cpu_of(p + a) =~= cpu_of(p) + cpu_of(a));
        assert(memory_of(p + a) =~= memory_of(p) + memory_of(a));
        assert(cpu_of(p.push(one_more) + a) =~= cpu_of(p).push(one_more.cpu_cores) + cpu_of(a));
        assert(memory_of(p.push(one_more) + a) =~= memory_of(p).push(one_more.memory_gb)
            + memory_of(a));
        let cluster: ClusterUtilization = s.cluster;
        lemma_target_with_less(
            cluster.used_cpu_cores,
            cost.cpu_cores,
            cpu_of(p),
            one_more.cpu_cores,
            cpu_of(a),
            cluster.total_cpu_cores,
            s.request_limits.cpu_percent,
            less.cpu_cores,
            more.cpu_cores,
        );
        lemma_target_with_less(
            cluster.used_memory_gb,
            cost.memory_gb,
            memory_of(p),
            one_more.memory_gb,
            memory_of(a),
            cluster.total_memory_gb,
            s.request_limits.memory_percent,
            less.memory_gb,
            more.memory_gb,
        );
    }
}

/// A start moves the cost of an approved simulation to those that run: the load that later
/// requests are held against stays the same.
pub proof fn start_keeps_the_reserved_load(
    s: SchedulerView,
    start: ReportStartPayload,
    request_id: u128,
    now: Timestamp,
)
    requires
        lookup(s.pending, start.simulation_id) is Some,
        lookup(s.active, start.simulation_id) is None,
    ensures
        approved_costs(after_start(s, start, request_id, now)).to_multiset() == approved_costs(
            s,
        ).to_multiset(),
{
    let id: u128 = start.simulation_id;
    let t: SchedulerView = after_start(s, start, request_id, now);
    let cost: ResourceCost = remembered_cost(s, start);
    let p: Seq<ResourceCost> = Seq::new(s.pending.len(), |i: int| s.pending[i].1);
    let a: Seq<ResourceCost> = Seq::new(s.active.len(), |i: int| s.active[i].1.predicted_cost);
    lemma_find(s.pending, id);
    let at: int = find(s.pending, id)->0;
    assert(p[at] == cost);
    assert(approved_costs(s) =~= p + a);
    assert(approved_costs(t) =~= p.remove(at) + a.push(cost));
    p.to_multiset_ensures();
    a.to_multiset_ensures();
    vstd::seq_lib::lemma_multiset_commutative(p, a);
    vstd::seq_lib::lemma_multiset_commutative(p.remove(at), a.push(cost));
    assert(p.to_multiset().count(cost) > 0);
    assert((p.remove(at) + a.push(cost)).to_multiset() =~= (p + a).to_multiset());
}

/// The peak of what was measured is not below any measurement, and is one of them: for the
/// cores and for the memory each on its own. What is not a number counts only where nothing
/// else was measured.
pub proof fn peak_is_the_greatest_measurement(snaps: Seq<ResourceSnapshot>)
    requires
        snaps.len() > 0,
    ensures
        forall|i: int|
            0 <= i < snaps.len() && !(#[trigger] snaps[i]).cpu_cores.is_nan()
                ==> snaps[i].cpu_cores.le(peak_usage(snaps).cpu_cores),
        forall|i: int|
            0 <= i < snaps.len() && !(#[trigger] snaps[i]).memory_gb.is_nan()
                ==> snaps[i].memory_gb.le(peak_usage(snaps).memory_gb),
        exists|i: int|
            0 <= i < snaps.len() && (#[trigger] snaps[i]).cpu_cores == peak_usage(snaps).cpu_cores,
        exists|i: int|
            0 <= i < snaps.len() && (#[trigger] snaps[i]).memory_gb == peak_usage(snaps).memory_gb,
    decreases snaps.len(),
{
    let n: int = snaps.len() - 1;
    assert(snaps[n] == snaps.last());
    if snaps.len() > 1 {
        let prior: Seq<ResourceSnapshot> = snaps.drop_last();
        peak_is_the_greatest_measurement(prior);
        assert forall|i: int|
            0 <= i < snaps.len() && !(#[trigger] snaps[i]).cpu_cores.is_nan() implies
            snaps[i].cpu_cores.le(peak_usage(snaps).cpu_cores) by {
            if i < n {
                assert(prior[i] == snaps[i]);
            }
        }
        assert forall|i: int|
            0 <= i < snaps.len() && !(#[trigger] snaps[i]).memory_gb.is_nan() implies
            snaps[i].memory_gb.le(peak_usage(snaps).memory_gb) by {
            if i < n {
                assert(prior[i] == snaps[i]);
            }
        }
        let c: int = choose|i: int|
            0 <= i < prior.len() && (#[trigger] prior[i]).cpu_cores == peak_usage(prior).cpu_cores;
        let m: int = choose|i: int|
            0 <= i < prior.len() && (#[trigger] prior[i]).memory_gb == peak_usage(prior).memory_gb;
        assert(snaps[c] == prior[c]);
        assert(snaps[m] == prior[m]);
    }
}

/// The cost that is learned of a measured simulation is the peak of its measurements, and that
/// is the prediction for the next one of its size.
pub proof fn learned_cost_is_the_peak(
    sim: ActiveView,
    payload: ReportCompletePayload,
    params: SimulationParamsView,
    row: HistoryRow,
)
    requires
        sim.usage_snapshots.len() > 0,
        row.em_cpu == Some(final_cost(sim, payload).cpu_cores),
        row.em_mem == Some(final_cost(sim, payload).memory_gb),
    ensures
        final_cost(sim, payload) == peak_usage(sim.usage_snapshots),
        predicted_cost(params, Ok(Some(row))) == peak_usage(sim.usage_snapshots),
{
}

/// An observed cost for the same chart and size is the next prediction, as it was observed.
pub proof fn observed_costs_are_predicted(
    params: SimulationParamsView,
    row: HistoryRow,
    observed: ResourceCost,
)
    requires
        row.em_cpu == Some(observed.cpu_cores),
        row.em_mem == Some(observed.memory_gb),
    ensures
        predicted_cost(params, Ok(Some(row))) == (ResourceCost {
            monetary_cost_eur: None,
            ..observed
        }),
{
}

/// Without history, and where the history cannot be asked, the prediction is the default.
pub proof fn no_history_means_default(params: SimulationParamsView, cause: String, row: HistoryRow)
    requires
        row.em_cpu is None || row.em_mem is None,
        row.cl_nodes is None,
        row.ch_nodes is None,
    ensures
        predicted_cost(params, Ok(Some(row))) == default_cost(params),
        predicted_cost(params, Ok(None)) == default_cost(params),
        predicted_cost(params, Err(cause)) == default_cost(params),
{
}

/// First come, first served: what is queued later does not change what runs next, nor whether
/// it may.
pub proof fn later_simulations_wait(s: SchedulerView, q: QueuedView, id: u128, now: Timestamp)
    requires
        s.queued.len() > 0,
    ensures
        admits_next(after_enqueue(s, q)) == admits_next(s),
        after_admission(after_enqueue(s, q), id, now) == after_enqueue(
            after_admission(s, id, now),
            q,
        ),
{
    assert(s.queued.push(q).drop_first() =~= s.queued.drop_first().push(q));
}

/// A simulation that may not run stays at the head of the queue, and holds up what follows.
pub proof fn refused_head_stays(s: SchedulerView, id: u128, now: Timestamp)
    ensures
        !admits_next(s) ==> after_admission(s, id, now) == s,
        admits_next(s) ==> seq![s.queued[0]] + after_admission(s, id, now).queued == s.queued,
{
    if admits_next(s) {
        assert(seq![s.queued[0]] + s.queued.drop_first() =~= s.queued);
    }
}

/// The identifiers of the requests that wait and of those that run, with how often they occur.
pub open spec fn request_ids(s: SchedulerView) -> Multiset<u128> {
    queued_ids(s).to_multiset().add(
        Seq::new(s.active.len(), |i: int| s.active[i].1.request_id).to_multiset(),
    )
}

/// The identifiers of the requests that wait, in their order.
pub open spec fn queued_ids(s: SchedulerView) -> Seq<u128> {
    Seq::new(s.queued.len(), |i: int| s.queued[i].request_id)
}

/// Looking at the queue loses no request and makes none up: what leaves the queue runs. Only a
/// simulation that runs under the very identifier that is given anew has to give way.
pub proof fn admission_keeps_requests(s: SchedulerView, id: u128, now: Timestamp)
    ensures
        request_ids(after_admission(s, id, now)) == match lookup(s.active, id) {
            Some(sim) => if admits_next(s) {
                request_ids(s).remove(sim.request_id)
            } else {
                request_ids(s)
            },
            None => request_ids(s),
        },
{
    if admits_next(s) {
        let t: SchedulerView = after_admission(s, id, now);
        let q: Seq<u128> = queued_ids(s);
        let a: Seq<u128> = Seq::new(s.active.len(), |i: int| s.active[i].1.request_id);
        let b: Seq<u128> = Seq::new(t.active.len(), |i: int| t.active[i].1.request_id);
        let first: u128 = s.queued[0].request_id;
        assert(queued_ids(t) =~= q.remove(0));
        q.to_multiset_ensures();
        a.to_multiset_ensures();
        assert(q[0] == first);
        assert(q.to_multiset().count(first) > 0);
        lemma_find(s.active, id);
        match find(s.active, id) {
            Some(at) => {
                assert(b =~= a.remove(at).insert(at, first));
                to_multiset_insert(a.remove(at), at, first);
                assert(a[at] == s.active[at].1.request_id);
                assert(a.to_multiset().count(a[at]) > 0);
                assert(request_ids(t) =~= request_ids(s).remove(a[at]));
            },
            None => {
                assert(b =~= a.push(first));
                assert(request_ids(t) =~= request_ids(s));
            },
        }
    }
}

/// The state after the queue was looked at several times, and the requests that were let run,
/// in the order in which they were. Each time has its identifier and its clock.
pub open spec fn after_admissions(s: SchedulerView, calls: Seq<(u128, Timestamp)>) -> (
    SchedulerView,
    Seq<u128>,
)
    decreases calls.len(),
{
    if calls.len() == 0 {
        (s, Seq::empty())
    } else {
        let (t, started) = after_admissions(s, calls.drop_last());
        let (id, now) = calls.last();
        (
            after_admission(t, id, now),
            if admits_next(t) {
                started.push(t.queued[0].request_id)
            } else {
                started
            },
        )
    }
}

/// Simulations are let run in the order in which they were queued: those that were and those
/// that still wait are together the queue as it was.
pub proof fn admissions_follow_the_queue(s: SchedulerView, calls: Seq<(u128, Timestamp)>)
    ensures
        ({
            let (t, started) = after_admissions(s, calls);
            started + queued_ids(t) == queued_ids(s)
        }),
    decreases calls.len(),
{
    let (t, started) = after_admissions(s, calls);
    if calls.len() == 0 {
        assert(started + queued_ids(t) =~= queued_ids(s));
    } else {
        admissions_follow_the_queue(s, calls.drop_last());
        let (before, earlier) = after_admissions(s, calls.drop_last());
        assert(started + queued_ids(t) =~= earlier + queued_ids(before));
    }
}

/// A run that is admitted and ends leaves the simulations that run as they were, and is what
/// finished last.
pub proof fn admission_then_finish(
    s: SchedulerView,
    task: ActiveView,
    began: Timestamp,
    now: Timestamp,
)
    requires
        s.well_formed(),
        admits_next(s),
        lookup(s.active, task.simulation_id) is None,
    ensures
        ({
            let id = task.simulation_id;
            let t = after_finish(after_admission(s, id, began), task, now);
            &&& t.active == s.active
            &&& t.pending == s.pending
            &&& t.queued == s.queued.drop_first()
            &&& t.last_finished matches Some(f) && f.simulation_id == id && f.params
                == s.queued[0].params && f.predicted_cost == s.queued[0].predicted_cost
                && f.actual_cost == s.queued[0].predicted_cost && f.finished_at == end_of(task, now)
        }),
{
    let id: u128 = task.simulation_id;
    let sim: ActiveView = admitted(s.queued[0], id, began);
    put_then_lookup(s.active, id, sim, id);
    put_then_without(s.active, id, sim);
}

/// Once a simulation has ended it does not run any more, and every other one does as before;
/// ending it again changes nothing.
pub proof fn finish_ends_one_simulation(
    s: SchedulerView,
    task: ActiveView,
    other: u128,
    now: Timestamp,
    later: Timestamp,
)
    requires
        s.well_formed(),
    ensures
        ({
            let id = task.simulation_id;
            let t = after_finish(s, task, now);
            &&& lookup(t.active, id) is None
            &&& other != id ==> lookup(t.active, other) == lookup(s.active, other)
            &&& after_finish(t, task, later) == t
            &&& lookup(s.active, id) matches Some(sim) ==> t.last_finished == Some(
                finished(
                    sim,
                    measured_or_predicted(sim),
                    end_of(with_times(sim, task), now),
                ),
            )
        }),
{
    let id: u128 = task.simulation_id;
    without_then_lookup(s.active, id, id);
    without_then_lookup(s.active, id, other);
}

/// A run that is repeated is deployed with the configuration of the first: the same chart,
/// size, duration and workload, for the same issue.
pub proof fn rerun_keeps_the_configuration(
    original: ActiveView,
    cost: ResourceCost,
    request_id: u128,
    id: u128,
    now: Timestamp,
)
    ensures
        ({
            let again = admitted(requeued(original, cost, request_id), id, now);
            &&& again.params == original.params
            &&& again.workload == original.workload
            &&& again.bootstrap_nodes == original.bootstrap_nodes
            &&& again.issue_number == original.issue_number
            &&& again.request_id == request_id
        }),
{
}

/// The number that the first digits of an identifier stand for.
proof fn lemma_leading_digits(id: u128, digits: Seq<char>)
    requires
        digits.len() <= 32,
        forall|k: int|
            0 <= k < digits.len() ==> #[trigger] digits[k] == hex_digit(
                id as nat / pow2((124 - 4 * k) as nat) % 16,
            ),
    ensures
        hex_number(digits) == Some(id as nat / pow2((128 - 4 * digits.len()) as nat)),
    decreases digits.len(),
{
    let n: nat = digits.len();
    if n == 0 {
        lemma2_to64_rest();
        lemma_pow2_adds(64, 64);
        lemma_basic_div(id as int, pow2(128) as int);
    } else {
        let init: Seq<char> = digits.drop_last();
        assert forall|k: int| 0 <= k < init.len() implies #[trigger] init[k] == hex_digit(
            id as nat / pow2((124 - 4 * k) as nat) % 16,
        ) by {
            assert(init[k] == digits[k]);
        }
        lemma_leading_digits(id, init);
        let e: nat = (128 - 4 * n) as nat;
        lemma2_to64();
        lemma_pow2_pos(e);
        lemma_pow2_adds(e, 4);
        lemma_div_denominator(id as int, pow2(e) as int, 16);
        let q: nat = id as nat / pow2(e);
        assert(digits.last() == digits[n - 1]);
        assert(124 - 4 * (n - 1) == e);
        let d: nat = q % 16;
        assert(hex_value(hex_digit(d)) == Some(d));
        assert(16 * (q / 16) + q % 16 == q);
    }
}

/// The text of an identifier, as the run history keeps it, is read back as that identifier: a
/// run can be asked for by what is kept of it.
pub proof fn recorded_identifiers_read_back(id: u128)
    ensures
        uuid_number(hyphenated(id)) == Some(id as nat),
{
    let s: Seq<char> = hyphenated(id);
    let digits: Seq<char> = s.subrange(0, 8) + s.subrange(9, 13) + s.subrange(14, 18)
        + s.subrange(19, 23) + s.subrange(24, 36);
    assert forall|k: int| 0 <= k < digits.len() implies #[trigger] digits[k] == hex_digit(
        id as nat / pow2((124 - 4 * k) as nat) % 16,
    ) by {
        let i: int = if k < 8 {
            k
        } else if k < 12 {
            k + 1
        } else if k < 16 {
            k + 2
        } else if k < 20 {
            k + 3
        } else {
            k + 4
        };
        assert(digits[k] == s[i]);
        assert(digit_place(i) == k);
    }
    lemma_leading_digits(id, digits);
    lemma2_to64();
    assert(id as nat / 1 == id as nat);
}

/// Time runs at one of the known speeds, and a known speed is taken as it is.
pub proof fn known_speeds_only(factor: u32)
    ensures
        is_dilation(dilation(factor)),
        is_dilation(factor) ==> dilation(factor) == factor,
        !is_dilation(factor) ==> dilation(factor) == 1,
        dilation(dilation(factor)) == dilation(factor),
{
}

/// A status is seen on the simulation it was given to, and changes nothing else.
pub proof fn status_changes_one_simulation(
    s: SchedulerView,
    id: u128,
    other: u128,
    status: Seq<char>,
)
    requires
        s.well_formed(),
        lookup(s.active, id) is Some,
    ensures
        ({
            let t = with_status(s, id, status);
            &&& lookup(t.active, id) == Some(
                ActiveView { status: status, ..lookup(s.active, id)->0 },
            )
            &&& other != id ==> lookup(t.active, other) == lookup(s.active, other)
            &&& approved_costs(t) == approved_costs(s)
        }),
{
    let sim: ActiveView = ActiveView { status: status, ..lookup(s.active, id)->0 };
    put_then_lookup(s.active, id, sim, id);
    put_then_lookup(s.active, id, sim, other);
    lemma_find(s.active, id);
    assert(approved_costs(with_status(s, id, status)) =~= approved_costs(s));
}

} // verus!
