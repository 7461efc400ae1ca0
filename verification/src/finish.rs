//! The end of a simulation that the scheduler has run: what is left of it, and what the
//! histories keep.

use crate::events::{events_view, AppEvent, EventView};
use crate::laws::finish_keeps_well_formed;
use crate::model::{
    ActiveSimulation, ActiveView, CostHistoryEntry, LastFinishedSimulation, ResourceCost,
    ResourceSnapshot, Timestamp,
};
use crate::outside::{hyphenated, uuid_text};
use crate::registry::{lookup, without};
use crate::requests::{finished, records};
use crate::single::Single;
use crate::state::{Scheduler, SchedulerView};
use crate::text::same;
use vstd::prelude::*;

verus! {

/// When a simulation ended: as it says itself, or now.
pub open spec fn end_of(sim: ActiveView, now: Timestamp) -> Timestamp {
    match sim.end_time {
        Some(t) => t,
        None => now,
    }
}

/// What a simulation used last, where that was measured. The cost history takes this of the
/// runs that the scheduler makes itself, and the peak of those that others report.
pub open spec fn measured(sim: ActiveView) -> Option<ResourceCost> {
    if sim.usage_snapshots.len() > 0 {
        Some(
            ResourceCost {
                cpu_cores: sim.usage_snapshots.last().cpu_cores,
                memory_gb: sim.usage_snapshots.last().memory_gb,
                monetary_cost_eur: None,
            },
        )
    } else {
        None
    }
}

/// What a simulation used last; where that was not measured, what it was predicted to use.
pub open spec fn measured_or_predicted(sim: ActiveView) -> ResourceCost {
    match measured(sim) {
        Some(cost) => cost,
        None => sim.predicted_cost,
    }
}

/// A simulation with its final status and the time of its end.
pub open spec fn closed_sim(sim: ActiveView, status: Seq<char>, now: Timestamp) -> ActiveView {
    ActiveView { status: status, end_time: Some(end_of(sim, now)), ..sim }
}

/// A time that the task has taken, or else what is known of it.
pub open spec fn time_or(taken: Option<Timestamp>, known: Option<Timestamp>) -> Option<Timestamp> {
    match taken {
        Some(t) => Some(t),
        None => known,
    }
}

fn take_time(taken: Option<Timestamp>, known: Option<Timestamp>) -> (r: Option<Timestamp>)
    ensures
        r == time_or(taken, known),
{
    match taken {
        Some(t) => Some(t),
        None => known,
    }
}

/// What is known of a simulation, with the times that its task has taken.
pub open spec fn with_times(known: ActiveView, task: ActiveView) -> ActiveView {
    ActiveView {
        start_time: time_or(task.start_time, known.start_time),
        end_time: time_or(task.end_time, known.end_time),
        ..known
    }
}

/// The state after the end of a simulation, given how its task leaves it; the same where it
/// does not run.
pub open spec fn after_finish(s: SchedulerView, task: ActiveView, now: Timestamp) -> SchedulerView {
    let id = task.simulation_id;
    match lookup(s.active, id) {
        Some(known) => {
            let sim = with_times(known, task);
            SchedulerView {
                active: without(s.active, id),
                last_finished: Some(finished(sim, measured_or_predicted(sim), end_of(sim, now))),
                ..s
            }
        },
        None => s,
    }
}

/// A number as the database holds it: in 64 bits with a sign, wrapping around.
pub open spec fn wrapped(n: u64) -> int {
    if n < 0x8000_0000_0000_0000 {
        n as int
    } else {
        n - 0x1_0000_0000_0000_0000
    }
}

fn wrap(n: u64) -> (r: i64)
    ensures
        r == wrapped(n),
{
    let r: i64 = n as i64;
    assert(n < 0x8000_0000_0000_0000 ==> r == n) by (bit_vector)
        requires
            r == n as i64,
    ;
    assert(n >= 0x8000_0000_0000_0000 ==> r == n - 0x1_0000_0000_0000_0000) by (bit_vector)
        requires
            r == n as i64,
    ;
    r
}

/// What the run history is to keep of a run, besides its whole configuration.
#[derive(Debug)]
pub struct RunRecord {
    pub simulation_id: String,
    pub request_id: String,
    pub issue_number: Option<i64>,
    pub status: String,
    pub chart: String,
    pub node_count: i64,
    pub duration_secs: i64,
    pub start_time: Option<Timestamp>,
    pub end_time: Timestamp,
    pub release_name: String,
    pub predicted_cpu_cores: Single,
    pub predicted_memory_gb: Single,
    pub actual_cpu_cores: Option<Single>,
    pub actual_memory_gb: Option<Single>,
    pub results_url: Option<String>,
}

impl RunRecord {
    /// Whether the record is that of a simulation at the given end.
    pub open spec fn of(self, sim: ActiveView, end: Timestamp) -> bool {
        &&& self.simulation_id@ == hyphenated(sim.simulation_id)
        &&& self.request_id@ == hyphenated(sim.request_id)
        &&& match (self.issue_number, sim.issue_number) {
            (Some(kept), Some(issue)) => kept == wrapped(issue),
            (None, None) => true,
            _ => false,
        }
        &&& self.status@ == sim.status
        &&& self.chart@ == sim.params.chart
        &&& self.node_count == sim.params.node_count
        &&& self.duration_secs == sim.params.duration_secs
        &&& self.start_time == sim.start_time
        &&& self.end_time == end
        &&& self.release_name@ == sim.release_name
        &&& self.predicted_cpu_cores == sim.predicted_cost.cpu_cores
        &&& self.predicted_memory_gb == sim.predicted_cost.memory_gb
        &&& self.actual_cpu_cores == match measured(sim) {
            Some(cost) => Some(cost.cpu_cores),
            None => None,
        }
        &&& self.actual_memory_gb == match measured(sim) {
            Some(cost) => Some(cost.memory_gb),
            None => None,
        }
        &&& self.results_url is None
    }
}

/// A run that has ended: the simulation at its end, and what the histories are to keep. The
/// cost history learns of it only where it completed and was measured.
#[derive(Debug)]
pub struct FinishedRun {
    pub simulation: ActiveSimulation,
    pub record: RunRecord,
    pub entry: Option<CostHistoryEntry>,
}

impl FinishedRun {
    /// Whether this is the end of a simulation with the given status.
    pub open spec fn closes(self, sim: ActiveView, status: Seq<char>, now: Timestamp) -> bool {
        let end = end_of(sim, now);
        &&& self.simulation@ == closed_sim(sim, status, now)
        &&& self.record.of(closed_sim(sim, status, now), end)
        &&& match self.entry {
            Some(entry) => status == "Completed"@ && measured(sim) is Some && records(
                entry,
                sim.params,
                measured(sim)->0,
                end,
            ),
            None => status != "Completed"@ || measured(sim) is None,
        }
    }
}

/// What the end of a simulation has led to: what watchers are told, and the run where the
/// simulation was still known.
#[derive(Debug)]
pub struct Finish {
    pub events: Vec<AppEvent>,
    pub run: Option<FinishedRun>,
}

fn last_usage(sim: &ActiveSimulation) -> (r: Option<ResourceCost>)
    ensures
        r == measured(sim@),
{
    let n: usize = sim.usage_snapshots.len();
    if n > 0 {
        let latest: ResourceSnapshot = sim.usage_snapshots[n - 1];
        Some(
            ResourceCost {
                cpu_cores: latest.cpu_cores,
                memory_gb: latest.memory_gb,
                monetary_cost_eur: None,
            },
        )
    } else {
        None
    }
}

fn make_record(sim: &ActiveSimulation, end: Timestamp) -> (r: RunRecord)
    ensures
        r.of(sim@, end),
{
    let actual: Option<ResourceCost> = last_usage(sim);
    RunRecord {
        simulation_id: uuid_text(sim.simulation_id),
        request_id: uuid_text(sim.request_id),
        issue_number: match sim.issue_number {
            Some(issue) => Some(wrap(issue)),
            None => None,
        },
        status: sim.status.clone(),
        chart: sim.params.chart.clone(),
        node_count: sim.params.node_count as i64,
        duration_secs: sim.params.duration_secs as i64,
        start_time: sim.start_time,
        end_time: end,
        release_name: sim.release_name.clone(),
        predicted_cpu_cores: sim.predicted_cost.cpu_cores,
        predicted_memory_gb: sim.predicted_cost.memory_gb,
        actual_cpu_cores: match actual {
            Some(cost) => Some(cost.cpu_cores),
            None => None,
        },
        actual_memory_gb: match actual {
            Some(cost) => Some(cost.memory_gb),
            None => None,
        },
        results_url: None,
    }
}

impl Scheduler {
    /// Takes a simulation that has ended out of those that run, given how its task leaves it.
    pub fn finish_simulation(
        &mut self,
        task: &ActiveSimulation,
        status: &str,
        now: Timestamp,
    ) -> (r: Finish)
        ensures
            final(self)@ == after_finish(old(self)@, task@, now),
            match lookup(old(self)@.active, task.simulation_id) {
                Some(known) => {
                    &&& events_view(r.events@) == seq![
                        EventView::ActiveUpdated(final(self)@.running()),
                        EventView::LastFinished(final(self)@.last_finished->0),
                    ]
                    &&& r.run matches Some(run) && run.closes(
                        with_times(known, task@),
                        status@,
                        now,
                    )
                    &&& known.usage_snapshots.len() > 0 ==> {
                        let last = known.usage_snapshots[known.usage_snapshots.len() - 1];
                        let actual = final(self)@.last_finished->0.actual_cost;
                        let run = r.run->0;
                        &&& actual.cpu_cores == last.cpu_cores
                        &&& actual.memory_gb == last.memory_gb
                        &&& run.record.actual_cpu_cores == Some(last.cpu_cores)
                        &&& run.record.actual_memory_gb == Some(last.memory_gb)
                        &&& run.entry is Some ==> run.entry->0.cpu_cores == last.cpu_cores
                            && run.entry->0.memory_gb == last.memory_gb
                    }
                },
                None => {
                    &&& events_view(r.events@) == seq![
                        EventView::ActiveUpdated(final(self)@.running()),
                    ]
                    &&& r.run is None
                },
            },
            old(self)@.well_formed() ==> final(self)@.well_formed(),
    {
        proof {
            if self@.well_formed() {
                finish_keeps_well_formed(self@, task@, now);
            }
        }
        let id: u128 = task.simulation_id;
        let removed: Option<ActiveSimulation> = self.active.remove(id);
        let mut events: Vec<AppEvent> = Vec::new();
        events.push(AppEvent::ActiveUpdated(self.active_list()));
        match removed {
            Some(sim) => {
                let mut sim: ActiveSimulation = sim;
                let ghost before: ActiveView = with_times(sim@, task@);
                sim.start_time = take_time(task.start_time, sim.start_time);
                sim.end_time = take_time(task.end_time, sim.end_time);
                let end: Timestamp = match sim.end_time {
                    Some(t) => t,
                    None => now,
                };
                sim.status = status.to_owned();
                sim.end_time = Some(end);
                assert(sim@ == closed_sim(before, status@, now));
                let actual: Option<ResourceCost> = last_usage(&sim);
                let last: LastFinishedSimulation = LastFinishedSimulation {
                    simulation_id: sim.simulation_id,
                    params: sim.params.clone(),
                    predicted_cost: sim.predicted_cost,
                    actual_cost: match actual {
                        Some(cost) => cost,
                        None => sim.predicted_cost,
                    },
                    finished_at: end,
                    duration_secs: sim.params.duration_secs,
                };
                self.last_finished = Some(last.clone());
                events.push(AppEvent::LastFinished(last));
                assert(events_view(events@) =~= seq![
                    EventView::ActiveUpdated(self@.running()),
                    EventView::LastFinished(self@.last_finished->0),
                ]);
                let record: RunRecord = make_record(&sim, end);
                let entry: Option<CostHistoryEntry> = match actual {
                    Some(cost) => {
                        if same(status, "Completed") {
                            Some(
                                CostHistoryEntry {
                                    chart: sim.params.chart.clone(),
                                    node_count: sim.params.node_count,
                                    duration_secs: sim.params.duration_secs,
                                    cpu_cores: cost.cpu_cores,
                                    memory_gb: cost.memory_gb,
                                    observed_at: end,
                                },
                            )
                        } else {
                            None
                        }
                    },
                    None => None,
                };
                Finish { events, run: Some(FinishedRun { simulation: sim, record, entry }) }
            },
            None => {
                assert(events_view(events@) =~= seq![EventView::ActiveUpdated(self@.running())]);
                Finish { events, run: None }
            },
        }
    }
}

} // verus!
