//! The course of one simulation that the scheduler runs: it is deployed, rolled out, left to
//! run, and removed.

use crate::events::{events_view, EventView};
use crate::finish::{after_finish, with_times, Finish, FinishedRun};
use crate::model::{ActiveSimulation, ActiveView, Timestamp};
use crate::registry::lookup;
use crate::state::{with_status, Scheduler, SchedulerView};
use vstd::prelude::*;

verus! {

/// How a simulation ends.
#[derive(Clone, Copy, Debug, PartialEq, Eq, Structural)]
pub enum Outcome {
    Completed,
    FailedConfig,
    FailedIo,
    FailedHelm,
    FailedRollout,
}

impl Outcome {
    /// The status that the run history keeps.
    pub open spec fn status(self) -> Seq<char> {
        match self {
            Outcome::Completed => "Completed"@,
            Outcome::FailedConfig => "Failed (Config)"@,
            Outcome::FailedIo => "Failed (IO)"@,
            Outcome::FailedHelm => "Failed (Helm)"@,
            Outcome::FailedRollout => "Failed (Rollout)"@,
        }
    }

    pub fn status_text(&self) -> (r: &'static str)
        ensures
            r@ == self.status(),
    {
        match self {
            Outcome::Completed => "Completed",
            Outcome::FailedConfig => "Failed (Config)",
            Outcome::FailedIo => "Failed (IO)",
            Outcome::FailedHelm => "Failed (Helm)",
            Outcome::FailedRollout => "Failed (Rollout)",
        }
    }
}

/// What a task waits for.
#[derive(Clone, Copy, Debug, PartialEq, Eq, Structural)]
pub enum Stage {
    /// To be begun.
    Begin,
    /// The values file to be written.
    Writing,
    /// The deployment.
    Deploying,
    /// The values file to be removed, after a deployment that succeeded or failed.
    Discarding(bool),
    /// The nodes to be rolled out.
    RollingOut,
    /// The time that the simulation takes to pass.
    Running,
    /// The deployment to be removed.
    Removing(Outcome),
    /// Nothing any more.
    Done,
}

impl Stage {
    /// The stage that follows once what is waited for has succeeded or failed.
    pub open spec fn next(self, succeeded: bool) -> Stage {
        match self {
            Stage::Begin => if succeeded {
                Stage::Writing
            } else {
                Stage::Removing(Outcome::FailedConfig)
            },
            Stage::Writing => if succeeded {
                Stage::Deploying
            } else {
                Stage::Removing(Outcome::FailedIo)
            },
            Stage::Deploying => Stage::Discarding(succeeded),
            Stage::Discarding(deployed) => if deployed {
                Stage::RollingOut
            } else {
                Stage::Removing(Outcome::FailedHelm)
            },
            Stage::RollingOut => if succeeded {
                Stage::Running
            } else {
                Stage::Removing(Outcome::FailedRollout)
            },
            Stage::Running => Stage::Removing(Outcome::Completed),
            Stage::Removing(_) => Stage::Done,
            Stage::Done => Stage::Done,
        }
    }

    /// The statuses that the simulation is given on the way to the next stage.
    pub open spec fn statuses(self, succeeded: bool) -> Seq<Seq<char>> {
        match self {
            Stage::Begin => if succeeded {
                seq!["Deploying"@]
            } else {
                seq!["Deploying"@, "Failed (Config)"@, "CleaningUp"@]
            },
            Stage::Writing => if succeeded {
                seq![]
            } else {
                seq!["Failed (IO)"@, "CleaningUp"@]
            },
            Stage::Discarding(deployed) => if deployed {
                seq!["WaitingForRollout"@]
            } else {
                seq!["Failed (Helm)"@, "CleaningUp"@]
            },
            Stage::RollingOut => if succeeded {
                seq!["Running"@]
            } else {
                seq!["Failed (Rollout)"@, "CleaningUp"@]
            },
            Stage::Running => seq!["CleaningUp"@],
            _ => seq![],
        }
    }

    /// Whether the values file lies on the disk.
    pub open spec fn holds_file(self) -> bool {
        self is Deploying || self is Discarding
    }
}

/// The state once a simulation has been given several statuses one after the other.
pub open spec fn with_statuses(
    s: SchedulerView,
    id: u128,
    statuses: Seq<Seq<char>>,
) -> SchedulerView
    decreases statuses.len(),
{
    if statuses.len() == 0 {
        s
    } else {
        with_status(with_statuses(s, id, statuses.drop_last()), id, statuses.last())
    }
}

/// The simulation as the task knows it: with the time that the deployment began at, then that
/// of the rollout, and then that of the end.
pub open spec fn timed(
    sim: ActiveView,
    stage: Stage,
    succeeded: bool,
    now: Timestamp,
) -> ActiveView {
    match stage {
        Stage::Begin => ActiveView { start_time: Some(now), ..sim },
        Stage::RollingOut => if succeeded {
            ActiveView { start_time: Some(now), ..sim }
        } else {
            sim
        },
        Stage::Running => ActiveView { end_time: Some(now), ..sim },
        _ => sim,
    }
}

/// What is to be done next. What comes of it is reported back.
#[derive(Debug)]
pub enum Action {
    /// Write the values file, with this content.
    WriteValues(String),
    /// Deploy with the values file.
    Deploy,
    /// Remove the values file.
    DiscardValues,
    /// Wait for the rollout of this set of nodes.
    AwaitRollout(String),
    /// Let so many seconds pass.
    Wait(u32),
    /// Remove the deployment.
    Uninstall,
    /// Write down what has come of it, and analyse the run where that is due.
    Close { finish: Finish, analyse: bool },
    Nothing,
}

/// The values that a simulation is deployed with.
pub open spec fn values_yaml() -> Seq<char> {
    "key: value # Stub YAML"@
}

pub fn generate_values_yaml(sim: &ActiveSimulation) -> (r: Result<String, String>)
    ensures
        r matches Ok(yaml) && yaml@ == values_yaml(),
{
    Ok("key: value # Stub YAML".to_owned())
}

/// The set of nodes of a release.
pub open spec fn statefulset(release_name: Seq<char>) -> Seq<char> {
    release_name + "-nodes"@
}

/// A simulation and how far it has come.
#[derive(Debug)]
pub struct Task {
    pub simulation: ActiveSimulation,
    pub stage: Stage,
}

impl Task {
    pub fn new(simulation: ActiveSimulation) -> (r: Self)
        ensures
            r.simulation == simulation,
            r.stage is Begin,
    {
        Task { simulation, stage: Stage::Begin }
    }

    /// Gives up before the simulation ran, with the status of the failure.
    fn give_up(&mut self, scheduler: &mut Scheduler, outcome: Outcome) -> (r: Action)
        ensures
            r is Uninstall,
            final(self).simulation == old(self).simulation,
            final(self).stage == Stage::Removing(outcome),
            final(scheduler)@ == with_status(
                with_status(
                    old(scheduler)@,
                    old(self).simulation.simulation_id,
                    outcome.status(),
                ),
                old(self).simulation.simulation_id,
                "CleaningUp"@,
            ),
            old(scheduler)@.well_formed() ==> final(scheduler)@.well_formed(),
    {
        let id: u128 = self.simulation.simulation_id;
        scheduler.update_simulation_status(id, outcome.status_text());
        scheduler.update_simulation_status(id, "CleaningUp");
        self.stage = Stage::Removing(outcome);
        Action::Uninstall
    }

    /// Begins, given the values to deploy with, or the failure to make them.
    pub fn begin(
        &mut self,
        scheduler: &mut Scheduler,
        values: Result<String, String>,
        now: Timestamp,
    ) -> (r: Action)
        requires
            old(self).stage is Begin,
        ensures
            final(self).simulation@ == timed(
                old(self).simulation@,
                Stage::Begin,
                values is Ok,
                now,
            ),
            final(self).stage == Stage::Begin.next(values is Ok),
            final(scheduler)@ == with_statuses(
                old(scheduler)@,
                old(self).simulation@.simulation_id,
                Stage::Begin.statuses(values is Ok),
            ),
            match values {
                Ok(yaml) => r matches Action::WriteValues(content) && content@ == yaml@,
                Err(_) => r is Uninstall,
            },
            old(scheduler)@.well_formed() ==> final(scheduler)@.well_formed(),
    {
        proof {
            reveal_with_fuel(with_statuses, 4);
            lemma_drop_last(Stage::Begin.statuses(values is Ok));
        }
        let id: u128 = self.simulation.simulation_id;
        scheduler.update_simulation_status(id, "Deploying");
        self.simulation.start_time = Some(now);
        match values {
            Ok(yaml) => {
                self.stage = Stage::Writing;
                Action::WriteValues(yaml)
            },
            Err(_) => self.give_up(scheduler, Outcome::FailedConfig),
        }
    }

    /// Goes on, given whether what the last action was about has succeeded.
    pub fn step(&mut self, scheduler: &mut Scheduler, succeeded: bool, now: Timestamp) -> (r:
        Action)
        ensures
            ({
                let sim = old(self).simulation@;
                let stage = old(self).stage;
                let ok = succeeded || stage is Begin;
                &&& final(self).stage == stage.next(ok)
                &&& final(self).simulation@ == timed(sim, stage, ok, now)
                &&& match stage {
                    Stage::Removing(outcome) => {
                        &&& final(scheduler)@ == after_finish(old(scheduler)@, sim, now)
                        &&& r matches Action::Close { finish, analyse } && analyse == (outcome
                            is Completed && finish.run is Some) && match lookup(
                            old(scheduler)@.active,
                            sim.simulation_id,
                        ) {
                            Some(known) => {
                                &&& finish.run matches Some(run) && run.closes(
                                    with_times(known, sim),
                                    outcome.status(),
                                    now,
                                )
                                &&& events_view(finish.events@) == seq![
                                    EventView::ActiveUpdated(final(scheduler)@.running()),
                                    EventView::LastFinished(final(scheduler)@.last_finished->0),
                                ]
                            },
                            None => {
                                &&& finish.run is None
                                &&& events_view(finish.events@) == seq![
                                    EventView::ActiveUpdated(final(scheduler)@.running()),
                                ]
                            },
                        }
                    },
                    _ => final(scheduler)@ == with_statuses(
                        old(scheduler)@,
                        sim.simulation_id,
                        stage.statuses(ok),
                    ),
                }
                &&& match stage.next(ok) {
                    Stage::Begin => false,
                    Stage::Writing => r matches Action::WriteValues(content) && content@
                        == values_yaml(),
                    Stage::Deploying => r is Deploy,
                    Stage::Discarding(_) => r is DiscardValues,
                    Stage::RollingOut => r matches Action::AwaitRollout(name) && name@
                        == statefulset(sim.release_name),
                    Stage::Running => r == Action::Wait(sim.params.duration_secs),
                    Stage::Removing(_) => r is Uninstall,
                    Stage::Done => if stage is Done {
                        r is Nothing
                    } else {
                        r is Close
                    },
                }
            }),
            old(scheduler)@.well_formed() ==> final(scheduler)@.well_formed(),
    {
        proof {
            reveal_with_fuel(with_statuses, 3);
            lemma_drop_last(self.stage.statuses(succeeded || self.stage is Begin));
        }
        let id: u128 = self.simulation.simulation_id;
        match self.stage {
            Stage::Begin => {
                let values: Result<String, String> = generate_values_yaml(&self.simulation);
                self.begin(scheduler, values, now)
            },
            Stage::Writing => {
                if succeeded {
                    self.stage = Stage::Deploying;
                    Action::Deploy
                } else {
                    self.give_up(scheduler, Outcome::FailedIo)
                }
            },
            Stage::Deploying => {
                self.stage = Stage::Discarding(succeeded);
                Action::DiscardValues
            },
            Stage::Discarding(deployed) => {
                if deployed {
                    scheduler.update_simulation_status(id, "WaitingForRollout");
                    self.stage = Stage::RollingOut;
                    let name: String = self.simulation.release_name.clone();
                    Action::AwaitRollout(name.concat("-nodes"))
                } else {
                    self.give_up(scheduler, Outcome::FailedHelm)
                }
            },
            Stage::RollingOut => {
                if succeeded {
                    self.simulation.start_time = Some(now);
                    scheduler.update_simulation_status(id, "Running");
                    self.stage = Stage::Running;
                    Action::Wait(self.simulation.params.duration_secs)
                } else {
                    self.give_up(scheduler, Outcome::FailedRollout)
                }
            },
            Stage::Running => {
                self.simulation.end_time = Some(now);
                scheduler.update_simulation_status(id, "CleaningUp");
                self.stage = Stage::Removing(Outcome::Completed);
                Action::Uninstall
            },
            Stage::Removing(outcome) => {
                let finish: Finish = scheduler.finish_simulation(
                    &self.simulation,
                    outcome.status_text(),
                    now,
                );
                let completed: bool = match outcome {
                    Outcome::Completed => true,
                    _ => false,
                };
                let analyse: bool = completed && finish.run.is_some();
                self.stage = Stage::Done;
                Action::Close { finish, analyse }
            },
            Stage::Done => Action::Nothing,
        }
    }
}

/// What is left of a short sequence of statuses without its last.
proof fn lemma_drop_last(s: Seq<Seq<char>>)
    ensures
        s.len() == 1 ==> s.drop_last() == Seq::<Seq<char>>::empty(),
        s.len() == 2 ==> s.drop_last() == seq![s[0]],
        s.len() == 3 ==> s.drop_last() == seq![s[0], s[1]] && s.drop_last().drop_last() == seq![
            s[0],
        ],
        s.len() >= 2 ==> seq![s[0]].drop_last() == Seq::<Seq<char>>::empty(),
{
    if s.len() == 1 {
        assert(s.drop_last() =~= Seq::<Seq<char>>::empty());
    }
    if s.len() == 2 {
        assert(s.drop_last() =~= seq![s[0]]);
    }
    if s.len() == 3 {
        assert(s.drop_last() =~= seq![s[0], s[1]]);
        assert(s.drop_last().drop_last() =~= seq![s[0]]);
    }
    if s.len() >= 2 {
        assert(seq![s[0]].drop_last() =~= Seq::<Seq<char>>::empty());
    }
}

/// The stage of a task after so many steps, given what succeeds.
pub open spec fn stage_after(start: Stage, succeeds: spec_fn(Stage) -> bool, steps: nat) -> Stage
    decreases steps,
{
    if steps == 0 {
        start
    } else {
        stage_after(start, succeeds, (steps - 1) as nat).next(
            succeeds(stage_after(start, succeeds, (steps - 1) as nat)),
        )
    }
}

/// Whatever succeeds and whatever fails, a task comes to its end in seven steps, and removes
/// the deployment just before.
pub proof fn every_task_ends(succeeds: spec_fn(Stage) -> bool)
    ensures
        stage_after(Stage::Begin, succeeds, 7) is Done,
        exists|n: nat|
            n < 7 && stage_after(Stage::Begin, succeeds, n) is Removing && #[trigger] stage_after(
                Stage::Begin,
                succeeds,
                n + 1,
            ) is Done,
{
    let s = |n: nat| stage_after(Stage::Begin, succeeds, n);
    assert(s(0) == Stage::Begin);
    assert(s(1) == s(0).next(succeeds(s(0))));
    assert(s(2) == s(1).next(succeeds(s(1))));
    assert(s(3) == s(2).next(succeeds(s(2))));
    assert(s(4) == s(3).next(succeeds(s(3))));
    assert(s(5) == s(4).next(succeeds(s(4))));
    assert(s(6) == s(5).next(succeeds(s(5))));
    assert(s(7) == s(6).next(succeeds(s(6))));
    let n: nat = if s(1) is Removing {
        1
    } else if s(2) is Removing {
        2
    } else if s(4) is Removing {
        4
    } else if s(5) is Removing {
        5
    } else {
        6
    };
    assert(s(n) is Removing);
    assert(stage_after(Stage::Begin, succeeds, n + 1) is Done);
}

/// A run counts as completed only where every step before has succeeded, and what is removed
/// after a failure never counts as completed.
pub proof fn completed_only_after_success(stage: Stage, succeeded: bool)
    ensures
        stage.next(succeeded) == Stage::Removing(Outcome::Completed) <==> stage is Running,
        stage.next(succeeded) is Running <==> stage is RollingOut && succeeded,
        stage.next(succeeded) is RollingOut <==> stage == Stage::Discarding(true),
        stage.next(succeeded) == Stage::Discarding(true) <==> stage is Deploying && succeeded,
        stage.next(succeeded) is Deploying <==> stage is Writing && succeeded,
        stage.next(succeeded) is Writing <==> stage is Begin && succeeded,
{
}

/// A failure is kept under its own status: the one that the simulation was given when it
/// failed, just before the clean-up.
pub proof fn failures_keep_their_status(stage: Stage, succeeded: bool)
    requires
        stage.next(succeeded) matches Stage::Removing(outcome) && outcome !is Completed,
    ensures
        ({
            let statuses = stage.statuses(succeeded);
            let outcome = stage.next(succeeded)->Removing_0;
            &&& statuses.len() >= 2
            &&& statuses[statuses.len() - 2] == outcome.status()
            &&& statuses.last() == "CleaningUp"@
        }),
{
}

/// A run that completes is kept with the time of its rollout as its start, and that of the end
/// of its wait as its end, whatever time its removal takes.
pub proof fn run_times_are_kept(
    s: SchedulerView,
    sim: ActiveView,
    rolled_out: Timestamp,
    waited: Timestamp,
    removed: Timestamp,
    run: FinishedRun,
)
    requires
        lookup(s.active, sim.simulation_id) is Some,
        ({
            let ready = timed(sim, Stage::RollingOut, true, rolled_out);
            let done = timed(ready, Stage::Running, true, waited);
            run.closes(
                with_times(lookup(s.active, sim.simulation_id)->0, done),
                Outcome::Completed.status(),
                removed,
            )
        }),
    ensures
        run.record.start_time == Some(rolled_out),
        run.record.end_time == waited,
        run.simulation@.start_time == Some(rolled_out),
        run.simulation@.end_time == Some(waited),
        ({
            let ready = timed(sim, Stage::RollingOut, true, rolled_out);
            let done = timed(ready, Stage::Running, true, waited);
            after_finish(s, done, removed).last_finished matches Some(f) && f.finished_at == waited
        }),
{
}

/// A values file that has been written is removed whether or not the deployment succeeds, and
/// before anything else happens.
pub proof fn values_file_is_removed(stage: Stage, succeeded: bool)
    requires
        stage.holds_file(),
    ensures
        stage is Deploying ==> stage.next(succeeded) is Discarding,
        stage is Discarding ==> !stage.next(succeeded).holds_file(),
{
}

/// Only the last of several statuses is seen in the end.
pub proof fn last_status_counts(s: SchedulerView, id: u128, first: Seq<char>, second: Seq<char>)
    requires
        s.well_formed(),
    ensures
        with_status(with_status(s, id, first), id, second) == with_status(s, id, second),
{
    match lookup(s.active, id) {
        Some(sim) => {
            let a: ActiveView = ActiveView { status: first, ..sim };
            let b: ActiveView = ActiveView { status: second, ..sim };
            crate::registry::put_then_lookup(s.active, id, a, id);
            crate::registry::put_twice(s.active, id, a, b);
        },
        None => {},
    }
}

} // verus!
