//! What the scheduler tells those who watch it.

use crate::model::{
    ActiveSimulation, ActiveView, ClusterUtilization, FinishedView, LastFinishedSimulation,
    NamespaceUtilization, QueuedSimulation, QueuedView,
};
use crate::pricing::{calculate_monetary_cost, monetary_cost, priced, with_price};
use vstd::prelude::*;

verus! {

/// A change that watchers are told of.
#[derive(Debug)]
pub enum AppEvent {
    QueueUpdated(Vec<QueuedSimulation>),
    ActiveUpdated(Vec<ActiveSimulation>),
    LastFinished(LastFinishedSimulation),
    ClusterUtilizationUpdated(ClusterUtilization),
    NamespaceUtilizationUpdated(NamespaceUtilization),
}

pub enum EventView {
    QueueUpdated(Seq<QueuedView>),
    ActiveUpdated(Seq<ActiveView>),
    LastFinished(FinishedView),
    ClusterUtilizationUpdated(ClusterUtilization),
    NamespaceUtilizationUpdated(NamespaceUtilization),
}

pub open spec fn queue_view(s: Seq<QueuedSimulation>) -> Seq<QueuedView> {
    Seq::new(s.len(), |i: int| s[i]@)
}

pub open spec fn active_view(s: Seq<ActiveSimulation>) -> Seq<ActiveView> {
    Seq::new(s.len(), |i: int| s[i]@)
}

pub open spec fn events_view(s: Seq<AppEvent>) -> Seq<EventView> {
    Seq::new(s.len(), |i: int| s[i]@)
}

impl View for AppEvent {
    type V = EventView;

    open spec fn view(&self) -> EventView {
        match *self {
            AppEvent::QueueUpdated(v) => EventView::QueueUpdated(queue_view(v@)),
            AppEvent::ActiveUpdated(v) => EventView::ActiveUpdated(active_view(v@)),
            AppEvent::LastFinished(f) => EventView::LastFinished(f@),
            AppEvent::ClusterUtilizationUpdated(c) => EventView::ClusterUtilizationUpdated(c),
            AppEvent::NamespaceUtilizationUpdated(n) => EventView::NamespaceUtilizationUpdated(n),
        }
    }
}

fn clone_queue(queue: &Vec<QueuedSimulation>) -> (r: Vec<QueuedSimulation>)
    ensures
        queue_view(r@) == queue_view(queue@),
{
    let mut r: Vec<QueuedSimulation> = Vec::new();
    for i in 0..queue.len()
        invariant
            r@.len() == i,
            forall|j: int| 0 <= j < i ==> (#[trigger] r@[j])@ == queue@[j]@,
    {
        r.push(queue[i].clone());
    }
    assert(queue_view(r@) =~= queue_view(queue@));
    r
}

fn clone_actives(active: &Vec<ActiveSimulation>) -> (r: Vec<ActiveSimulation>)
    ensures
        active_view(r@) == active_view(active@),
{
    let mut r: Vec<ActiveSimulation> = Vec::new();
    for i in 0..active.len()
        invariant
            r@.len() == i,
            forall|j: int| 0 <= j < i ==> (#[trigger] r@[j])@ == active@[j]@,
    {
        r.push(active[i].clone());
    }
    assert(active_view(r@) =~= active_view(active@));
    r
}

impl Clone for AppEvent {
    fn clone(&self) -> (r: Self)
        ensures
            r@ == self@,
    {
        match self {
            AppEvent::QueueUpdated(queue) => AppEvent::QueueUpdated(clone_queue(queue)),
            AppEvent::ActiveUpdated(active) => AppEvent::ActiveUpdated(clone_actives(active)),
            AppEvent::LastFinished(finished) => AppEvent::LastFinished(finished.clone()),
            AppEvent::ClusterUtilizationUpdated(c) => AppEvent::ClusterUtilizationUpdated(*c),
            AppEvent::NamespaceUtilizationUpdated(n) => AppEvent::NamespaceUtilizationUpdated(*n),
        }
    }
}

/// A queued simulation with the price of its predicted cost.
pub open spec fn priced_queued(q: QueuedView) -> QueuedView {
    QueuedView { predicted_cost: priced(q.predicted_cost, q.params.duration_secs), ..q }
}

/// An active simulation with the prices of its predicted and its actual cost.
pub open spec fn priced_active(a: ActiveView) -> ActiveView {
    ActiveView {
        monetary_cost_eur_predicted: Some(
            monetary_cost(a.predicted_cost, a.params.duration_secs),
        ),
        monetary_cost_eur_actual: Some(monetary_cost(a.actual_cost, a.params.duration_secs)),
        ..a
    }
}

/// A finished simulation with the prices of its predicted and its actual cost.
pub open spec fn priced_finished(f: FinishedView) -> FinishedView {
    FinishedView {
        predicted_cost: priced(f.predicted_cost, f.duration_secs),
        actual_cost: priced(f.actual_cost, f.duration_secs),
        ..f
    }
}

pub open spec fn priced_queue(s: Seq<QueuedView>) -> Seq<QueuedView> {
    Seq::new(s.len(), |i: int| priced_queued(s[i]))
}

pub open spec fn priced_actives(s: Seq<ActiveView>) -> Seq<ActiveView> {
    Seq::new(s.len(), |i: int| priced_active(s[i]))
}

/// An event with the prices of the costs that it tells of.
pub open spec fn priced_event(e: EventView) -> EventView {
    match e {
        EventView::QueueUpdated(s) => EventView::QueueUpdated(priced_queue(s)),
        EventView::ActiveUpdated(s) => EventView::ActiveUpdated(priced_actives(s)),
        EventView::LastFinished(f) => EventView::LastFinished(priced_finished(f)),
        other => other,
    }
}

pub fn price_queued(sim: &QueuedSimulation) -> (r: QueuedSimulation)
    ensures
        r@ == priced_queued(sim@),
{
    let mut r: QueuedSimulation = sim.clone();
    r.predicted_cost = with_price(&sim.predicted_cost, sim.params.duration_secs);
    r
}

pub fn price_active(sim: &ActiveSimulation) -> (r: ActiveSimulation)
    ensures
        r@ == priced_active(sim@),
{
    let mut r: ActiveSimulation = sim.clone();
    r.monetary_cost_eur_predicted = Some(
        calculate_monetary_cost(&sim.predicted_cost, sim.params.duration_secs),
    );
    r.monetary_cost_eur_actual = Some(
        calculate_monetary_cost(&sim.actual_cost, sim.params.duration_secs),
    );
    r
}

pub fn price_finished(finished: &LastFinishedSimulation) -> (r: LastFinishedSimulation)
    ensures
        r@ == priced_finished(finished@),
{
    let mut r: LastFinishedSimulation = finished.clone();
    r.predicted_cost = with_price(&finished.predicted_cost, finished.duration_secs);
    r.actual_cost = with_price(&finished.actual_cost, finished.duration_secs);
    r
}

pub fn price_queue(queue: &Vec<QueuedSimulation>) -> (r: Vec<QueuedSimulation>)
    ensures
        queue_view(r@) == priced_queue(queue_view(queue@)),
{
    let mut r: Vec<QueuedSimulation> = Vec::new();
    for i in 0..queue.len()
        invariant
            r@.len() == i,
            forall|j: int| 0 <= j < i ==> (#[trigger] r@[j])@ == priced_queued(queue@[j]@),
    {
        r.push(price_queued(&queue[i]));
    }
    assert(queue_view(r@) =~= priced_queue(queue_view(queue@)));
    r
}

pub fn price_actives(active: &Vec<ActiveSimulation>) -> (r: Vec<ActiveSimulation>)
    ensures
        active_view(r@) == priced_actives(active_view(active@)),
{
    let mut r: Vec<ActiveSimulation> = Vec::new();
    for i in 0..active.len()
        invariant
            r@.len() == i,
            forall|j: int| 0 <= j < i ==> (#[trigger] r@[j])@ == priced_active(active@[j]@),
    {
        r.push(price_active(&active[i]));
    }
    assert(active_view(r@) =~= priced_actives(active_view(active@)));
    r
}

/// An event with the prices of the costs that it tells of.
pub fn with_costs(event: AppEvent) -> (r: AppEvent)
    ensures
        r@ == priced_event(event@),
{
    match event {
        AppEvent::QueueUpdated(queue) => AppEvent::QueueUpdated(price_queue(&queue)),
        AppEvent::ActiveUpdated(active) => AppEvent::ActiveUpdated(price_actives(&active)),
        AppEvent::LastFinished(finished) => AppEvent::LastFinished(price_finished(&finished)),
        AppEvent::ClusterUtilizationUpdated(c) => AppEvent::ClusterUtilizationUpdated(c),
        AppEvent::NamespaceUtilizationUpdated(n) => AppEvent::NamespaceUtilizationUpdated(n),
    }
}

/// What the channel of events hands to one watcher.
#[derive(Debug)]
pub enum Received {
    Event(AppEvent),
    /// The watcher was too slow, and so many events are lost to it.
    Lagged(u64),
    Closed,
}

/// What is to be done about it.
#[derive(Debug)]
pub enum StreamStep {
    Send(AppEvent),
    Wait,
    Stop,
}

pub enum ReceivedView {
    Event(EventView),
    Lagged(u64),
    Closed,
}

impl View for Received {
    type V = ReceivedView;

    open spec fn view(&self) -> ReceivedView {
        match *self {
            Received::Event(e) => ReceivedView::Event(e@),
            Received::Lagged(n) => ReceivedView::Lagged(n),
            Received::Closed => ReceivedView::Closed,
        }
    }
}

pub enum StepView {
    Send(EventView),
    Wait,
    Stop,
}

impl View for StreamStep {
    type V = StepView;

    open spec fn view(&self) -> StepView {
        match *self {
            StreamStep::Send(e) => StepView::Send(e@),
            StreamStep::Wait => StepView::Wait,
            StreamStep::Stop => StepView::Stop,
        }
    }
}

/// Events are passed on with their prices; a loss is waited over; the end of the channel is
/// that of the stream.
pub open spec fn next_step(received: ReceivedView) -> StepView {
    match received {
        ReceivedView::Event(e) => StepView::Send(priced_event(e)),
        ReceivedView::Lagged(_) => StepView::Wait,
        ReceivedView::Closed => StepView::Stop,
    }
}

/// Passes events on with their prices, waits on after a loss, and stops at the end.
pub fn stream_step(received: Received) -> (r: StreamStep)
    ensures
        r@ == next_step(received@),
{
    match received {
        Received::Event(event) => StreamStep::Send(with_costs(event)),
        Received::Lagged(_) => StreamStep::Wait,
        Received::Closed => StreamStep::Stop,
    }
}

/// What has been sent of all that was received, and whether the stream goes on.
pub open spec fn stream_of(received: Seq<ReceivedView>) -> (Seq<EventView>, bool)
    decreases received.len(),
{
    if received.len() == 0 {
        (Seq::empty(), true)
    } else {
        let (sent, open) = stream_of(received.drop_last());
        if !open {
            (sent, false)
        } else {
            match next_step(received.last()) {
                StepView::Send(e) => (sent.push(e), true),
                StepView::Wait => (sent, true),
                StepView::Stop => (sent, false),
            }
        }
    }
}

/// The events among what was received, in their order.
pub open spec fn events_in(received: Seq<ReceivedView>) -> Seq<EventView>
    decreases received.len(),
{
    if received.len() == 0 {
        Seq::empty()
    } else {
        match received.last() {
            ReceivedView::Event(e) => events_in(received.drop_last()).push(e),
            _ => events_in(received.drop_last()),
        }
    }
}

/// Events with the prices of the costs that they tell of.
pub open spec fn priced_events(events: Seq<EventView>) -> Seq<EventView> {
    Seq::new(events.len(), |i: int| priced_event(events[i]))
}

/// Whether the channel has stayed open.
pub open spec fn never_closed(received: Seq<ReceivedView>) -> bool {
    forall|i: int| 0 <= i < received.len() ==> (#[trigger] received[i]) !is Closed
}

/// As long as the channel is open, every event that comes through it is sent on, in order and
/// with its prices, and the stream goes on; what was lost is not made up.
pub proof fn stream_sends_every_event(received: Seq<ReceivedView>)
    requires
        never_closed(received),
    ensures
        stream_of(received) == (priced_events(events_in(received)), true),
    decreases received.len(),
{
    if received.len() == 0 {
        assert(priced_events(events_in(received)) =~= Seq::empty());
    } else {
        let prior: Seq<ReceivedView> = received.drop_last();
        assert forall|i: int| 0 <= i < prior.len() implies (#[trigger] prior[i]) !is Closed by {
            assert(prior[i] == received[i]);
        }
        stream_sends_every_event(prior);
        assert(received[received.len() - 1] !is Closed);
        match received.last() {
            ReceivedView::Event(e) => {
                assert(priced_events(events_in(prior).push(e)) =~= priced_events(
                    events_in(prior),
                ).push(priced_event(e)));
            },
            _ => {},
        }
    }
}

/// The stream ends when the channel is closed, and then sends nothing more.
pub proof fn stream_ends_when_closed(before: Seq<ReceivedView>, after: Seq<ReceivedView>)
    requires
        never_closed(before),
    ensures
        stream_of(before.push(ReceivedView::Closed) + after) == (
            priced_events(events_in(before)),
            false,
        ),
    decreases after.len(),
{
    let closed: Seq<ReceivedView> = before.push(ReceivedView::Closed);
    if after.len() == 0 {
        assert(closed + after =~= closed);
        assert(closed.drop_last() =~= before);
        stream_sends_every_event(before);
    } else {
        stream_ends_when_closed(before, after.drop_last());
        assert((closed + after).drop_last() =~= closed + after.drop_last());
    }
}

/// What a watcher is told in place of one of the first events where it cannot be written down.
pub fn initial_error(cause: &str) -> (r: String)
    ensures
        r@ == "Serialization error: "@ + cause@,
{
    "Serialization error: ".to_owned().concat(cause)
}

/// What a watcher is told in place of a later event where it cannot be written down.
pub fn stream_error(cause: &str) -> (r: String)
    ensures
        r@ == "Server serialization error: "@ + cause@,
{
    "Server serialization error: ".to_owned().concat(cause)
}

/// Prices depend on the rest of an event alone: pricing it again changes nothing.
pub proof fn pricing_is_idempotent(e: EventView)
    ensures
        priced_event(priced_event(e)) == priced_event(e),
{
    match e {
        EventView::QueueUpdated(s) => {
            assert(priced_queue(priced_queue(s)) =~= priced_queue(s));
        },
        EventView::ActiveUpdated(s) => {
            assert(priced_actives(priced_actives(s)) =~= priced_actives(s));
        },
        _ => {},
    }
}

} // verus!
