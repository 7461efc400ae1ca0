use lars::admission::{project, refusal, request_limits, Limits};
use lars::events::{
    initial_error, stream_error, stream_step, with_costs, AppEvent, Received, StreamStep,
};
use lars::model::{
    ActiveSimulation, ClusterUtilization, ReportCompletePayload, ReportStartPayload,
    RequestRunPayload, ResourceCost, ResourceSnapshot, Timestamp,
};
use lars::registry::Registry;
use lars::requests::Completion;
use lars::single::Single;
use lars::state::Scheduler;

fn s(x: f32) -> Single {
    Single { bits: x.to_bits() }
}

fn f(x: Single) -> f32 {
    f32::from_bits(x.bits)
}

fn at(secs: i64) -> Timestamp {
    Timestamp { secs, nanos: 0 }
}

fn request(node_count: u32) -> RequestRunPayload {
    RequestRunPayload { chart: "waku".to_string(), node_count, duration_secs: 3600 }
}

fn start(id: u128, node_count: u32) -> ReportStartPayload {
    ReportStartPayload {
        simulation_id: id,
        chart: "waku".to_string(),
        node_count,
        duration_secs: 3600,
        release_name: "waku-test".to_string(),
    }
}

fn complete(id: u128) -> ReportCompletePayload {
    ReportCompletePayload { simulation_id: id, final_cpu_cores: None, final_memory_gb: None }
}

fn actives(e: &AppEvent) -> &Vec<ActiveSimulation> {
    match e {
        AppEvent::ActiveUpdated(v) => v,
        _ => panic!("another event"),
    }
}

#[test]
fn small_request_is_accepted_and_remembered() {
    let mut lars = Scheduler::new();
    let r = lars.request_run(&request(100), &Ok(None), 7);
    assert_eq!(r.status, "ACCEPTED");
    assert_eq!(r.simulation_id, Some(7));
    assert_eq!(r.reason, None);
    assert_eq!(lars.pending.len(), 1);
    let cost = lars.pending.get(7).unwrap();
    assert_eq!(f(cost.cpu_cores), 100.0f32 * 0.1);
}

#[test]
fn request_beyond_the_limits_is_rejected_and_changes_nothing() {
    let mut lars = Scheduler::new();
    let before = format!("{:?}", lars);
    let r = lars.request_run(&request(10_000), &Ok(None), 7);
    assert_eq!(r.status, "REJECTED");
    assert_eq!(r.simulation_id, None);
    let percent = (10_000.0f32 * 0.1) / 1812.0 * 100.0;
    assert_eq!(
        r.reason,
        Some(format!("CPU limit ({:.1}%) would be exceeded ({:.1}%)", 30.0, percent))
    );
    assert_eq!(r.reason, Some("CPU limit (30.0%) would be exceeded (55.2%)".to_string()));
    assert_eq!(format!("{:?}", lars), before);
}

#[test]
fn both_limits_are_named_where_both_are_exceeded() {
    let cluster = ClusterUtilization::default();
    let cost =
        ResourceCost { cpu_cores: s(1812.0), memory_gb: s(2978.0), monetary_cost_eur: None };
    let p = project(&cluster, &cost);
    assert_eq!(
        refusal(&p, &request_limits()),
        Some(
            "CPU limit (30.0%) would be exceeded (100.0%), \
             Memory limit (85.0%) would be exceeded (100.0%)"
                .to_string()
        )
    );
    let wide = Limits { cpu_percent: s(100.0), memory_percent: s(85.0) };
    assert_eq!(
        refusal(&p, &wide),
        Some("Memory limit (85.0%) would be exceeded (100.0%)".to_string())
    );
    let wider = Limits { cpu_percent: s(100.0), memory_percent: s(100.0) };
    assert_eq!(refusal(&p, &wider), None);
}

#[test]
fn measured_use_counts() {
    let mut lars = Scheduler::new();
    lars.cluster.used_cpu_cores = s(543.0);
    assert_eq!(lars.request_run(&request(0), &Ok(None), 1).status, "ACCEPTED");
    assert_eq!(lars.request_run(&request(10), &Ok(None), 2).status, "REJECTED");
}

#[test]
fn approved_simulations_count_against_later_requests() {
    let mut lars = Scheduler::new();
    assert_eq!(lars.request_run(&request(4000), &Ok(None), 1).status, "ACCEPTED");
    assert_eq!(lars.request_run(&request(4000), &Ok(None), 2).status, "REJECTED");
    lars.report_start(start(1, 4000), 11, at(5));
    assert_eq!(lars.request_run(&request(4000), &Ok(None), 2).status, "REJECTED");
    lars.report_complete(&complete(1), at(9));
    assert_eq!(lars.request_run(&request(4000), &Ok(None), 2).status, "ACCEPTED");
}

#[test]
fn load_that_equals_its_limit_is_accepted() {
    let mut lars = Scheduler::new();
    lars.cluster.total_cpu_cores = s(1000.0);
    lars.cluster.used_cpu_cores = s(290.0);
    lars.cluster.total_memory_gb = s(1000.0);
    assert_eq!(lars.request_run(&request(100), &Ok(None), 1).status, "ACCEPTED");
    assert_eq!(lars.request_run(&request(1), &Ok(None), 2).status, "REJECTED");
}

fn exact(cpu: f32, memory: f32) -> lars::pricing::HistoryLookup {
    Ok(Some(lars::pricing::HistoryRow {
        em_cpu: Some(s(cpu)),
        em_mem: Some(s(memory)),
        em_nodes: Some(1),
        cl_cpu: None,
        cl_mem: None,
        cl_nodes: None,
        ch_cpu: None,
        ch_mem: None,
        ch_nodes: None,
    }))
}

#[test]
fn load_above_its_limit_by_little_is_rejected() {
    let mut lars = Scheduler::new();
    lars.cluster.total_memory_gb = s(999.99994);
    let r = lars.request_run(&request(1), &exact(0.0, 850.0), 1);
    assert_eq!(r.status, "REJECTED");
    assert_eq!(
        r.reason,
        Some("Memory limit (85.0%) would be exceeded (85.0%)".to_string())
    );
    lars.cluster.total_memory_gb = s(1000.0);
    assert_eq!(lars.request_run(&request(1), &exact(0.0, 850.0), 1).status, "ACCEPTED");
    assert_eq!(lars.request_run(&request(1), &exact(0.0, 1e-45), 2).status, "REJECTED");
    assert_eq!(lars.request_run(&request(1), &exact(0.0, -1e-45), 3).status, "ACCEPTED");
    assert_eq!(lars.request_run(&request(1), &exact(0.0, 1e-45), 4).status, "ACCEPTED");
}

#[test]
fn loads_without_an_exact_share_are_compared_by_their_percentage() {
    let mut lars = Scheduler::new();
    assert_eq!(lars.request_run(&request(1), &exact(f32::NAN, 1.0), 1).status, "REJECTED");
    assert_eq!(lars.request_run(&request(1), &exact(f32::INFINITY, 1.0), 1).status, "REJECTED");
    lars.cluster.total_cpu_cores = s(0.0);
    let r = lars.request_run(&request(1), &exact(1.0, 1.0), 1);
    assert_eq!(r.reason, Some("CPU limit (30.0%) would be exceeded (inf%)".to_string()));
}

#[test]
fn limits_can_be_changed() {
    let mut lars = Scheduler::new();
    lars.request_limits = Limits { cpu_percent: s(80.0), memory_percent: s(80.0) };
    assert_eq!(lars.request_run(&request(10_000), &Ok(None), 7).status, "ACCEPTED");
}

#[test]
fn start_uses_the_predicted_cost() {
    let mut lars = Scheduler::new();
    lars.request_run(&request(100), &Ok(None), 7);
    let mut other = start(7, 200);
    other.chart = "another".to_string();
    let event = lars.report_start(other, 99, at(5));
    let running = actives(&event);
    assert_eq!(running.len(), 1);
    let sim = &running[0];
    assert_eq!(sim.simulation_id, 7);
    assert_eq!(sim.request_id, 99);
    assert_eq!(f(sim.predicted_cost.cpu_cores), 10.0);
    assert_eq!(sim.actual_cost, sim.predicted_cost);
    assert_eq!(sim.status, "PendingDeployment");
    assert_eq!(sim.release_name, "waku-test");
    assert_eq!(sim.bootstrap_nodes, 0);
    assert_eq!(sim.last_snapshot_time, at(5));
    assert_eq!(sim.issue_number, None);
    let price = 10.0f32 * 0.01 * 1.0 + 5.0f32 * 0.005 * 1.0;
    assert_eq!(sim.monetary_cost_eur_predicted, Some(s(price)));
    assert_eq!(sim.monetary_cost_eur_actual, Some(s(price)));
    assert_eq!(lars.pending.len(), 0);
    assert_eq!(lars.active.len(), 1);
}

#[test]
fn start_without_approval_uses_the_default_cost() {
    let mut lars = Scheduler::new();
    lars.report_start(start(7, 100), 99, at(5));
    assert_eq!(f(lars.active.get(7).unwrap().predicted_cost.memory_gb), 100.0f32 * 0.05);
}

#[test]
fn completion_of_an_unused_approval_undoes_it() {
    let mut lars = Scheduler::new();
    let before = format!("{:?}", lars);
    lars.request_run(&request(100), &Ok(None), 7);
    let r = lars.report_complete(&complete(7), at(9));
    assert!(matches!(r, Completion::NeverStarted));
    assert_eq!(r.status(), 200);
    assert_eq!(format!("{:?}", lars), before);
}

#[test]
fn completion_of_an_unknown_simulation_changes_nothing() {
    let mut lars = Scheduler::new();
    lars.request_run(&request(100), &Ok(None), 7);
    let before = format!("{:?}", lars);
    let r = lars.report_complete(&complete(8), at(9));
    assert!(matches!(r, Completion::Unknown));
    assert_eq!(r.status(), 404);
    assert_eq!(format!("{:?}", lars), before);
}

#[test]
fn completion_is_remembered_once() {
    let mut lars = Scheduler::new();
    lars.report_start(start(7, 100), 99, at(5));
    match lars.report_complete(&complete(7), at(9)) {
        Completion::Finished { events, entry } => {
            assert_eq!(events.len(), 2);
            assert_eq!(actives(&events[0]).len(), 0);
            match &events[1] {
                AppEvent::LastFinished(last) => {
                    assert_eq!(last.simulation_id, 7);
                    assert_eq!(last.finished_at, at(9));
                    assert_eq!(last.duration_secs, 3600);
                    assert_eq!(last.actual_cost, last.predicted_cost);
                }
                _ => panic!("another event"),
            }
            assert_eq!(entry.chart, "waku");
            assert_eq!(entry.node_count, 100);
            assert_eq!(entry.duration_secs, 3600);
            assert_eq!(f(entry.cpu_cores), 10.0);
            assert_eq!(entry.observed_at, at(9));
        }
        _ => panic!("not finished"),
    }
    assert_eq!(lars.last_finished.as_ref().unwrap().simulation_id, 7);
    assert_eq!(lars.report_complete(&complete(7), at(10)).status(), 404);
}

fn learned(snapshots: &[(f32, f32)]) -> (f32, f32) {
    let mut lars = Scheduler::new();
    lars.report_start(start(2, 100), 99, at(5));
    let mut sim = lars.active.remove(2).unwrap();
    for (cpu, memory) in snapshots {
        sim.usage_snapshots.push(ResourceSnapshot {
            timestamp: at(6),
            cpu_cores: s(*cpu),
            memory_gb: s(*memory),
        });
    }
    lars.active.insert(2, sim);
    let mut reported = complete(2);
    reported.final_cpu_cores = Some(s(77.0));
    match lars.report_complete(&reported, at(9)) {
        Completion::Finished { entry, .. } => {
            let last = lars.last_finished.as_ref().unwrap().actual_cost;
            assert_eq!(last.cpu_cores, entry.cpu_cores);
            assert_eq!(last.memory_gb, entry.memory_gb);
            (f(entry.cpu_cores), f(entry.memory_gb))
        }
        _ => panic!("not finished"),
    }
}

#[test]
fn final_cost_prefers_the_peak_then_the_report() {
    let mut lars = Scheduler::new();
    lars.report_start(start(1, 100), 99, at(5));
    let mut reported = complete(1);
    reported.final_cpu_cores = Some(s(3.5));
    match lars.report_complete(&reported, at(9)) {
        Completion::Finished { entry, .. } => {
            assert_eq!(f(entry.cpu_cores), 3.5);
            assert_eq!(f(entry.memory_gb), 5.0);
        }
        _ => panic!("not finished"),
    }
    assert_eq!(learned(&[(1.0, 1.5), (2.0, 2.5)]), (2.0, 2.5));
    assert_eq!(learned(&[(4.0, 2.5), (2.0, 1.5)]), (4.0, 2.5));
    assert_eq!(learned(&[(4.0, 1.0), (2.0, 3.0), (3.0, 2.0)]), (4.0, 3.0));
    assert_eq!(learned(&[(f32::NAN, 1.0), (2.0, f32::NAN)]), (2.0, 1.0));
    assert_eq!(learned(&[(0.5, 0.25)]), (0.5, 0.25));
}

#[test]
fn time_runs_at_known_speeds() {
    let mut lars = Scheduler::new();
    assert_eq!(lars.time_dilation, 1);
    for factor in [1, 3, 5, 10] {
        assert_eq!(lars.set_time_dilation(factor), factor);
        assert_eq!(lars.time_dilation, factor);
    }
    for factor in [0, 2, 4, 11, u32::MAX] {
        assert_eq!(lars.set_time_dilation(factor), 1);
        assert_eq!(lars.time_dilation, 1);
    }
}

#[test]
fn status_is_seen_on_one_simulation() {
    let mut lars = Scheduler::new();
    lars.report_start(start(1, 1), 99, at(5));
    lars.report_start(start(2, 1), 99, at(5));
    lars.update_simulation_status(1, "Running");
    lars.update_simulation_status(3, "Running");
    assert_eq!(lars.active.get(1).unwrap().status, "Running");
    assert_eq!(lars.active.get(2).unwrap().status, "PendingDeployment");
    assert_eq!(lars.active.len(), 2);
}

#[test]
fn watchers_first_learn_the_state_with_prices() {
    let mut lars = Scheduler::new();
    assert_eq!(lars.initial_events().len(), 4);
    lars.report_start(start(1, 100), 99, at(5));
    lars.report_complete(&complete(1), at(6));
    let events = lars.initial_events();
    assert_eq!(events.len(), 5);
    assert!(matches!(events[0], AppEvent::QueueUpdated(_)));
    assert!(matches!(events[1], AppEvent::ActiveUpdated(_)));
    assert!(matches!(events[2], AppEvent::ClusterUtilizationUpdated(_)));
    assert!(matches!(events[3], AppEvent::NamespaceUtilizationUpdated(_)));
    match &events[4] {
        AppEvent::LastFinished(last) => {
            let price = 10.0f32 * 0.01 * 1.0 + 5.0f32 * 0.005 * 1.0;
            assert_eq!(last.predicted_cost.monetary_cost_eur, Some(s(price)));
            assert_eq!(last.actual_cost.monetary_cost_eur, Some(s(price)));
        }
        _ => panic!("another event"),
    }
}

#[test]
fn pricing_an_event_again_changes_nothing() {
    let mut lars = Scheduler::new();
    lars.report_start(start(1, 100), 99, at(5));
    let once = with_costs(AppEvent::ActiveUpdated(lars.active_list()));
    let first = format!("{:?}", once);
    assert_eq!(format!("{:?}", with_costs(once)), first);
}

#[test]
fn stream_goes_on_after_a_loss_and_ends_with_the_channel() {
    assert!(matches!(stream_step(Received::Lagged(3)), StreamStep::Wait));
    assert!(matches!(stream_step(Received::Closed), StreamStep::Stop));
    let event = AppEvent::ClusterUtilizationUpdated(ClusterUtilization::default());
    assert!(matches!(
        stream_step(Received::Event(event)),
        StreamStep::Send(AppEvent::ClusterUtilizationUpdated(_))
    ));
    let mut lars = Scheduler::new();
    let first = AppEvent::ActiveUpdated(lars.active_list());
    lars.report_start(start(1, 100), 99, at(5));
    let second = AppEvent::ActiveUpdated(lars.active_list());
    let mut sent = Vec::new();
    let received = vec![
        Received::Event(first),
        Received::Lagged(2),
        Received::Event(second),
        Received::Closed,
        Received::Lagged(1),
    ];
    for r in received {
        match stream_step(r) {
            StreamStep::Send(event) => sent.push(actives(&event).len()),
            StreamStep::Wait => {}
            StreamStep::Stop => break,
        }
    }
    assert_eq!(sent, vec![0, 1]);
    assert_eq!(initial_error("bad"), "Serialization error: bad");
    assert_eq!(stream_error("bad"), "Server serialization error: bad");
}

#[test]
fn entries_are_found_under_their_identifiers() {
    let cost = |cpu: f32| ResourceCost {
        cpu_cores: s(cpu),
        memory_gb: s(0.0),
        monetary_cost_eur: None,
    };
    let mut r: Registry<ResourceCost> = Registry::new();
    r.insert(5, cost(1.0));
    r.insert(3, cost(2.0));
    r.insert(5, cost(3.0));
    assert_eq!(r.len(), 2);
    assert_eq!(r.at(0), (5, &cost(3.0)));
    assert_eq!(r.get(3), Some(&cost(2.0)));
    assert_eq!(r.get(4), None);
    assert_eq!(r.remove(5), Some(cost(3.0)));
    assert_eq!(r.remove(5), None);
    assert_eq!(r.get(3), Some(&cost(2.0)));
    assert_eq!(r.len(), 1);
}

#[test]
fn cheaper_simulations_fit_where_dearer_ones_do() {
    let mut cluster = ClusterUtilization::default();
    cluster.used_cpu_cores = s(123.4);
    let mut fits = true;
    for n in 0..200 {
        let cost = ResourceCost {
            cpu_cores: s(n as f32 * 4.3),
            memory_gb: s(n as f32),
            monetary_cost_eur: None,
        };
        let now = refusal(&project(&cluster, &cost), &request_limits()).is_none();
        assert!(fits || !now);
        fits = now;
    }
    assert!(!fits);
}
