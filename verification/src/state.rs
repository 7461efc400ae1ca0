//! The state of the scheduler: what waits, what has been approved, what runs, and what the
//! cluster is able to take.

use crate::admission::{
    default_queue_limits, default_request_limits, queue_limits, request_limits, Limits,
};
use crate::events::{
    active_view, events_view, price_actives, price_finished, price_queue, priced_actives,
    priced_finished, priced_queue, queue_view, AppEvent, EventView,
};
use crate::laws::status_keeps_well_formed;
use crate::model::{
    idle_cluster, idle_namespace, ActiveSimulation, ActiveView, ClusterUtilization, FinishedView,
    LastFinishedSimulation, NamespaceUtilization, QueuedSimulation, QueuedView, ResourceCost,
};
use crate::registry::{distinct, lookup, put, Registry};
use std::collections::VecDeque;
use vstd::prelude::*;

verus! {

/// The state of the scheduler.
#[derive(Debug)]
pub struct Scheduler {
    /// The simulations that wait for admission, first come first served.
    pub queued: VecDeque<QueuedSimulation>,
    /// The predicted costs of the simulations that have been approved and not yet started.
    pub pending: Registry<ResourceCost>,
    /// The simulations that run.
    pub active: Registry<ActiveSimulation>,
    pub last_finished: Option<LastFinishedSimulation>,
    pub cluster: ClusterUtilization,
    pub namespace: NamespaceUtilization,
    /// How much faster than real time passes for made-up simulations.
    pub time_dilation: u32,
    /// What approvals for others may fill of the cluster.
    pub request_limits: Limits,
    /// What admissions from the queue may fill of the cluster.
    pub queue_limits: Limits,
}

#[verifier::ext_equal]
pub struct SchedulerView {
    pub queued: Seq<QueuedView>,
    pub pending: Seq<(u128, ResourceCost)>,
    pub active: Seq<(u128, ActiveView)>,
    pub last_finished: Option<FinishedView>,
    pub cluster: ClusterUtilization,
    pub namespace: NamespaceUtilization,
    pub time_dilation: u32,
    pub request_limits: Limits,
    pub queue_limits: Limits,
}

pub open spec fn opt_finished(f: Option<LastFinishedSimulation>) -> Option<FinishedView> {
    match f {
        Some(f) => Some(f@),
        None => None,
    }
}

impl View for Scheduler {
    type V = SchedulerView;

    open spec fn view(&self) -> SchedulerView {
        SchedulerView {
            queued: queue_view(self.queued@),
            pending: self.pending@,
            active: self.active@,
            last_finished: opt_finished(self.last_finished),
            cluster: self.cluster,
            namespace: self.namespace,
            time_dilation: self.time_dilation,
            request_limits: self.request_limits,
            queue_limits: self.queue_limits,
        }
    }
}

/// The state that the scheduler starts in.
pub open spec fn initial() -> SchedulerView {
    SchedulerView {
        queued: Seq::empty(),
        pending: Seq::empty(),
        active: Seq::empty(),
        last_finished: None,
        cluster: idle_cluster(),
        namespace: idle_namespace(),
        time_dilation: 1,
        request_limits: default_request_limits(),
        queue_limits: default_queue_limits(),
    }
}

/// Whether a factor is one that time may be sped up by.
pub open spec fn is_dilation(factor: u32) -> bool {
    factor == 1 || factor == 3 || factor == 5 || factor == 10
}

impl SchedulerView {
    /// No identifier is approved twice, or runs twice, each simulation that runs stands under
    /// its own identifier, and time runs at one of the known speeds.
    pub open spec fn well_formed(self) -> bool {
        &&& distinct(self.pending)
        &&& distinct(self.active)
        &&& forall|i: int|
            0 <= i < self.active.len() ==> (#[trigger] self.active[i]).1.simulation_id
                == self.active[i].0
        &&& is_dilation(self.time_dilation)
    }

    /// The simulations that run.
    pub open spec fn running(self) -> Seq<ActiveView> {
        Seq::new(self.active.len(), |i: int| self.active[i].1)
    }
}

/// The factor itself where time may be sped up by it, else one.
pub open spec fn dilation(factor: u32) -> u32 {
    if is_dilation(factor) {
        factor
    } else {
        1
    }
}

/// What a watcher is told first.
pub open spec fn opening_events(s: SchedulerView) -> Seq<EventView> {
    let state = seq![
        EventView::QueueUpdated(priced_queue(s.queued)),
        EventView::ActiveUpdated(priced_actives(s.running())),
        EventView::ClusterUtilizationUpdated(s.cluster),
        EventView::NamespaceUtilizationUpdated(s.namespace),
    ];
    match s.last_finished {
        Some(f) => state.push(EventView::LastFinished(priced_finished(f))),
        None => state,
    }
}

/// The state once a running simulation has a new status; the same where it does not run.
pub open spec fn with_status(s: SchedulerView, id: u128, status: Seq<char>) -> SchedulerView {
    match lookup(s.active, id) {
        Some(sim) => SchedulerView {
            active: put(s.active, id, ActiveView { status: status, ..sim }),
            ..s
        },
        None => s,
    }
}

impl Scheduler {
    pub fn new() -> (r: Self)
        ensures
            r@ == initial(),
            r@.well_formed(),
    {
        let r: Scheduler = Scheduler {
            queued: VecDeque::new(),
            pending: Registry::new(),
            active: Registry::new(),
            last_finished: None,
            cluster: ClusterUtilization::default(),
            namespace: NamespaceUtilization::default(),
            time_dilation: 1,
            request_limits: request_limits(),
            queue_limits: queue_limits(),
        };
        assert(r@ =~= initial());
        r
    }

    /// The simulations that run.
    pub fn active_list(&self) -> (r: Vec<ActiveSimulation>)
        ensures
            active_view(r@) == self@.running(),
    {
        let mut r: Vec<ActiveSimulation> = Vec::new();
        let n: usize = self.active.len();
        for i in 0..n
            invariant
                n == self.active@.len(),
                r@.len() == i,
                forall|j: int| 0 <= j < i ==> (#[trigger] r@[j])@ == self.active@[j].1,
        {
            let (_, sim) = self.active.at(i);
            r.push(sim.clone());
        }
        assert(active_view(r@) =~= self@.running());
        r
    }

    /// The simulations that wait.
    pub fn queue_list(&self) -> (r: Vec<QueuedSimulation>)
        ensures
            queue_view(r@) == self@.queued,
    {
        let mut r: Vec<QueuedSimulation> = Vec::new();
        let n: usize = self.queued.len();
        for i in 0..n
            invariant
                n == self.queued@.len(),
                r@.len() == i,
                forall|j: int| 0 <= j < i ==> (#[trigger] r@[j])@ == self.queued@[j]@,
        {
            r.push(self.queued[i].clone());
        }
        assert(queue_view(r@) =~= self@.queued);
        r
    }

    /// What a watcher is told first.
    pub fn initial_events(&self) -> (r: Vec<AppEvent>)
        ensures
            events_view(r@) == opening_events(self@),
    {
        let mut r: Vec<AppEvent> = Vec::new();
        r.push(AppEvent::QueueUpdated(price_queue(&self.queue_list())));
        r.push(AppEvent::ActiveUpdated(price_actives(&self.active_list())));
        r.push(AppEvent::ClusterUtilizationUpdated(self.cluster));
        r.push(AppEvent::NamespaceUtilizationUpdated(self.namespace));
        match &self.last_finished {
            Some(f) => {
                r.push(AppEvent::LastFinished(price_finished(f)));
            },
            None => {},
        }
        assert(events_view(r@) =~= opening_events(self@));
        r
    }

    /// Gives a running simulation a new status.
    pub fn update_simulation_status(&mut self, id: u128, status: &str)
        ensures
            final(self)@ == with_status(old(self)@, id, status@),
            old(self)@.well_formed() ==> final(self)@.well_formed(),
    {
        proof {
            if self@.well_formed() {
                status_keeps_well_formed(self@, id, status@);
            }
        }
        let found: Option<ActiveSimulation> = match self.active.get(id) {
            Some(sim) => Some(sim.clone()),
            None => None,
        };
        match found {
            Some(sim) => {
                let mut sim: ActiveSimulation = sim;
                sim.status = status.to_owned();
                self.active.insert(id, sim);
            },
            None => {},
        }
    }

    /// Speeds time up.
    pub fn set_time_dilation(&mut self, factor: u32) -> (r: u32)
        ensures
            r == dilation(factor),
            final(self)@ == (SchedulerView { time_dilation: dilation(factor), ..old(self)@ }),
            old(self)@.well_formed() ==> final(self)@.well_formed(),
    {
        let chosen: u32 = if factor == 1 || factor == 3 || factor == 5 || factor == 10 {
            factor
        } else {
            1
        };
        self.time_dilation = chosen;
        chosen
    }
}

} // verus!
