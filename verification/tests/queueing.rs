use lars::analysis::generate_scrape_plan;
use lars::events::AppEvent;
use lars::model::{
    MockSubmitRequest, QueuedSimulation, ResourceCost, ResourceSnapshot, SimulationParams,
    Timestamp,
};
use lars::pages::fresh_id;
use lars::queue::{
    make_release_name, mock_simulation, mock_source, rerun_id, size_text, Admission, MockBatch,
    MockShape, Recorded,
};
use lars::single::Single;
use lars::state::Scheduler;
use lars::task::{generate_values_yaml, Action, Outcome, Stage, Task};

fn s(x: f32) -> Single {
    Single { bits: x.to_bits() }
}

fn f(x: Single) -> f32 {
    f32::from_bits(x.bits)
}

fn at(secs: i64) -> Timestamp {
    Timestamp { secs, nanos: 0 }
}

const REQUEST: u128 = 0x0123_4567_89ab_cdef_0011_2233_4455_6677;

fn queued(id: u128, chart: &str, node_count: u32, cpu: f32) -> QueuedSimulation {
    let params =
        SimulationParams { chart: chart.to_string(), node_count, duration_secs: 1800 };
    let mut sim = mock_simulation(id, params, s(0.5), s(0.5), &Ok(None));
    sim.predicted_cost =
        ResourceCost { cpu_cores: s(cpu), memory_gb: s(1.0), monetary_cost_eur: None };
    sim
}

fn let_in(lars: &mut Scheduler, id: u128) -> lars::model::ActiveSimulation {
    match lars.process_next_simulation_from_queue(id, at(1)) {
        Admission::Started { simulation, .. } => simulation,
        _ => panic!("not started"),
    }
}

fn mocks(count: u32, base_nodes: u32) -> MockBatch {
    MockBatch::begin(MockSubmitRequest { count, base_nodes }, false).unwrap()
}

#[test]
fn mock_requests_are_checked() {
    let none = MockSubmitRequest { count: 0, base_nodes: 5 };
    let r = MockBatch::begin(none, true).unwrap_err();
    assert_eq!((r.status, r.text.as_str()), (400, "count must be > 0"));
    let some = MockSubmitRequest { count: 2, base_nodes: 5 };
    let r = MockBatch::begin(some, true).unwrap_err();
    assert_eq!(
        (r.status, r.text.as_str()),
        (503, "Queue is currently locked by another operation")
    );
    assert_eq!(mocks(2, 5).made.len(), 0);
}

#[test]
fn as_many_mocks_are_drawn_as_asked_for() {
    let mut rng = mock_source();
    let mut seen = std::collections::HashSet::new();
    let mut batch = mocks(2000, 7);
    while let Some(shape) = batch.draw_next(&mut rng) {
        assert!(shape.step < 100);
        assert!(3 <= shape.minutes && shape.minutes <= 15);
        assert!(1 <= shape.chart && shape.chart < 4);
        seen.insert((shape.step, shape.minutes, shape.chart));
        let params = batch.next_params(&shape).unwrap();
        batch.make(1, params, s(0.0), s(0.0), &Ok(None));
    }
    assert_eq!(batch.made.len(), 2000);
    assert!(seen.len() > 100);
}

#[test]
fn mock_parameters_follow_the_draw() {
    let shape = MockShape { step: 10, minutes: 15, chart: 3 };
    let mut batch = mocks(3, 50);
    for nodes in [60, 70, 80] {
        let p = batch.next_params(&shape).unwrap();
        assert_eq!(p.chart, "mock-chart-3");
        assert_eq!(p.node_count, nodes);
        assert_eq!(p.duration_secs, 900);
        batch.make(1, p, s(0.0), s(0.0), &Ok(None));
    }
    let still = MockShape { step: 0, minutes: 3, chart: 1 };
    assert_eq!(mocks(1, u32::MAX).next_params(&still).unwrap().node_count, u32::MAX);
    assert!(mocks(1, u32::MAX).next_params(&shape).is_none());
}

#[test]
fn mock_costs_are_estimated_and_checked() {
    let p = || SimulationParams {
        chart: "mock-chart-1".to_string(),
        node_count: 80,
        duration_secs: 900,
    };
    let sim = mock_simulation(5, p(), s(0.25), s(0.75), &Ok(None));
    let cpu = 0.18f32 + (0.25f32 * 0.04 - 0.02);
    let memory = 0.05f32 + (0.75f32 * 0.02 - 0.01);
    assert_eq!(f(sim.predicted_cost.cpu_cores), 80.0f32 * cpu);
    assert_eq!(f(sim.predicted_cost.memory_gb), 80.0f32 * memory);
    let hours = 900.0f32 / 3600.0;
    let price = 80.0f32 * cpu * 0.01 * hours + 80.0f32 * memory * 0.005 * hours;
    assert_eq!(sim.predicted_cost.monetary_cost_eur, Some(s(price)));
    assert_eq!(sim.parallel_limit, 1);
    assert_eq!(sim.request_id, 5);
    assert_eq!(sim.bootstrap_nodes, None);
    assert_eq!(sim.docker_image, "");
    let known = ResourceCost { cpu_cores: s(14.0), memory_gb: s(4.0), monetary_cost_eur: None };
    let sim = mock_simulation(5, p(), s(0.25), s(0.75), &Ok(Some(known)));
    assert_eq!(f(sim.predicted_cost.cpu_cores), 14.0);
}

#[test]
fn mocks_join_the_queue_in_order() {
    let mut lars = Scheduler::new();
    lars.enqueue_mocks(vec![queued(1, "a", 1, 1.0)]);
    let event = lars.enqueue_mocks(vec![queued(2, "a", 1, 1.0), queued(3, "a", 1, 1.0)]);
    match event {
        AppEvent::QueueUpdated(queue) => {
            let ids: Vec<u128> = queue.iter().map(|q| q.request_id).collect();
            assert_eq!(ids, vec![1, 2, 3]);
            assert!(queue.iter().all(|q| q.predicted_cost.monetary_cost_eur.is_some()));
        }
        _ => panic!("another event"),
    }
}

#[test]
fn queue_is_served_in_order() {
    let mut lars = Scheduler::new();
    assert!(matches!(lars.process_next_simulation_from_queue(9, at(1)), Admission::Empty));
    lars.enqueue_mocks(vec![queued(1, "a", 1, 1.0), queued(2, "a", 1, 1.0)]);
    let r = lars.process_next_simulation_from_queue(9, at(1));
    assert!(r.started());
    match r {
        Admission::Started { simulation, events } => {
            assert_eq!(simulation.request_id, 1);
            assert_eq!(simulation.simulation_id, 9);
            assert_eq!(simulation.status, "PendingDeployment");
            assert_eq!(simulation.bootstrap_nodes, 3);
            assert_eq!(simulation.actual_cost, ResourceCost::default());
            assert_eq!(simulation.monetary_cost_eur_actual, None);
            let price = 1.0f32 * 0.01 * 0.5 + 1.0f32 * 0.005 * 0.5;
            assert_eq!(simulation.monetary_cost_eur_predicted, Some(s(price)));
            assert_eq!(events.len(), 2);
            assert!(matches!(&events[0], AppEvent::ActiveUpdated(v) if v.len() == 1));
            assert!(matches!(&events[1], AppEvent::QueueUpdated(v) if v.len() == 1));
        }
        _ => panic!("not started"),
    }
    assert_eq!(let_in(&mut lars, 10).request_id, 2);
}

#[test]
fn no_request_is_lost_between_queue_and_cluster() {
    let mut lars = Scheduler::new();
    lars.enqueue_mocks(vec![
        queued(4, "a", 1, 1.0),
        queued(2, "a", 1, 1.0),
        queued(3, "a", 1, 2000.0),
        queued(1, "a", 1, 1.0),
    ]);
    for id in 10..15 {
        lars.process_next_simulation_from_queue(id, at(1));
        let mut ids: Vec<u128> = lars.active_list().iter().map(|a| a.request_id).collect();
        ids.extend(lars.queue_list().iter().map(|q| q.request_id));
        assert_eq!(ids, vec![4, 2, 3, 1]);
    }
    assert_eq!(lars.queued.len(), 2);
}

#[test]
fn head_that_does_not_fit_holds_up_the_queue() {
    let mut lars = Scheduler::new();
    lars.enqueue_mocks(vec![queued(1, "a", 1, 1500.0), queued(2, "a", 1, 1.0)]);
    let before = format!("{:?}", lars);
    match lars.process_next_simulation_from_queue(9, at(1)) {
        Admission::Refused(reason) => {
            assert_eq!(reason, "CPU limit (80.0%) would be exceeded (82.8%)");
        }
        _ => panic!("not refused"),
    }
    assert_eq!(format!("{:?}", lars), before);
    lars.cluster.total_cpu_cores = s(3000.0);
    assert_eq!(let_in(&mut lars, 9).request_id, 1);
}

#[test]
fn sizes_are_counted_in_thousands() {
    for n in [0u32, 1, 999, 1000, 1001, 1999, 2000, 12345, 16776999, 33553999, u32::MAX] {
        let k = n as f32 / 1000.0;
        let expected = if k >= 1.0 { format!("{}k", k as u32) } else { n.to_string() };
        assert_eq!(size_text(n), expected);
    }
    assert_eq!(size_text(999), "999");
    assert_eq!(size_text(1000), "1k");
}

#[test]
fn releases_are_named_after_their_workload() {
    let mut sim = queued(REQUEST, "waku", 2500, 1.0);
    sim.publisher_message_size = 5;
    sim.publisher_delay = 10;
    assert_eq!(make_release_name(&sim), "waku-2k-5mgs-10s-5kb-012345");
    let mut sim = queued(REQUEST, "nimlibp2p", 500, 1.0);
    assert_eq!(make_release_name(&sim), "nimlibp2p-500-0mgs-0kb-012345");
    sim.message_rate = Some(7);
    sim.message_size = Some(8);
    assert_eq!(make_release_name(&sim), "nimlibp2p-500-7mgs-8kb-012345");
}

#[test]
fn identifiers_are_random_and_read_back() {
    let a = fresh_id();
    let b = fresh_id();
    assert_ne!(a, b);
    assert_eq!((a >> 76) & 0xf, 4);
    assert_eq!((a >> 62) & 0x3, 2);
    let mut lars = Scheduler::new();
    lars.enqueue_mocks(vec![queued(1, "waku", 300, 1.0)]);
    let sim = let_in(&mut lars, a);
    let kept = lars.finish_simulation(&sim, "Completed", at(5)).run.unwrap().record.simulation_id;
    assert_eq!(rerun_id(&kept), Ok(a));
    assert_eq!(rerun_id("01234567-89ab-cdef-0011-223344556677"), Ok(REQUEST));
    assert_eq!(rerun_id("0123456789ABCDEF0011223344556677"), Ok(REQUEST));
    assert_eq!(rerun_id("{01234567-89ab-cdef-0011-223344556677}"), Ok(REQUEST));
    assert_eq!(rerun_id("urn:uuid:01234567-89ab-cdef-0011-223344556677"), Ok(REQUEST));
}

#[test]
fn malformed_identifiers_are_refused() {
    for text in ["", "1", "01234567-89ab-cdef-0011-22334455667g", "0123456789abcdef-00112233-44556677"]
    {
        let e = rerun_id(text).unwrap_err();
        assert_eq!((e.status, e.text.as_str()), (400, "Invalid simulation ID format"));
    }
}

#[test]
fn rerun_keeps_the_configuration() {
    let mut lars = Scheduler::new();
    let mut first = queued(1, "waku", 300, 1.0);
    first.docker_image = "image:1".to_string();
    first.bootstrap_nodes = Some(5);
    first.nodes_command = Some("run".to_string());
    first.issue_number = Some(42);
    lars.enqueue_mocks(vec![first]);
    let original = let_in(&mut lars, 9);
    let done = lars.rerun_simulation(Recorded::Found(original), REQUEST).unwrap();
    assert_eq!(done.message, "Simulation queued for rerun");
    assert_eq!(done.new_request_id, "01234567-89ab-cdef-0011-223344556677");
    assert!(matches!(&done.event, AppEvent::QueueUpdated(q) if q.len() == 1));
    let again = let_in(&mut lars, 10);
    assert_eq!(again.request_id, REQUEST);
    assert_eq!(again.docker_image, "image:1");
    assert_eq!(again.bootstrap_nodes, 5);
    assert_eq!(again.nodes_command, Some("run".to_string()));
    assert_eq!(again.issue_number, Some(42));
    assert_eq!(again.params.node_count, 300);
    assert_eq!(f(again.predicted_cost.cpu_cores), 300.0f32 * 0.1);
}

#[test]
fn rerun_says_what_is_missing() {
    let mut lars = Scheduler::new();
    let cases = [
        (Recorded::Missing, 404, "Simulation ID not found in history"),
        (Recorded::Failed, 500, "Database error"),
        (Recorded::Unreadable, 500, "Failed to parse original simulation config"),
    ];
    for (recorded, status, text) in cases {
        let e = lars.rerun_simulation(recorded, 1).unwrap_err();
        assert_eq!((e.status, e.text.as_str()), (status, text));
    }
    lars.enqueue_mocks(vec![queued(1, "waku", 300, 1.0)]);
    let original = let_in(&mut lars, 9);
    let e = lars.queue_rerun(original, Err("no".to_string()), 1).unwrap_err();
    assert_eq!((e.status, e.text.as_str()), (500, "Failed to predict cost for rerun"));
    assert_eq!(lars.queued.len(), 0);
}

fn status_of(lars: &Scheduler, id: u128) -> String {
    lars.active.get(id).unwrap().status.clone()
}

#[test]
fn task_runs_to_completion() {
    let mut lars = Scheduler::new();
    let mut first = queued(1, "waku", 300, 1.0);
    first.issue_number = Some(u64::MAX);
    lars.enqueue_mocks(vec![first]);
    let mut task = Task::new(let_in(&mut lars, REQUEST));
    let release = task.simulation.release_name.clone();
    match task.step(&mut lars, true, at(2)) {
        Action::WriteValues(yaml) => assert_eq!(yaml, "key: value # Stub YAML"),
        _ => panic!("another action"),
    }
    assert_eq!(status_of(&lars, REQUEST), "Deploying");
    assert_eq!(task.simulation.start_time, Some(at(2)));
    assert!(matches!(task.step(&mut lars, true, at(3)), Action::Deploy));
    assert!(matches!(task.step(&mut lars, true, at(4)), Action::DiscardValues));
    match task.step(&mut lars, false, at(5)) {
        Action::AwaitRollout(name) => assert_eq!(name, format!("{}-nodes", release)),
        _ => panic!("another action"),
    }
    assert_eq!(status_of(&lars, REQUEST), "WaitingForRollout");
    assert!(matches!(task.step(&mut lars, true, at(6)), Action::Wait(1800)));
    assert_eq!(status_of(&lars, REQUEST), "Running");
    assert_eq!(task.simulation.start_time, Some(at(6)));
    let mut sim = lars.active.remove(REQUEST).unwrap();
    sim.usage_snapshots.push(ResourceSnapshot {
        timestamp: at(7),
        cpu_cores: s(12.5),
        memory_gb: s(2.5),
    });
    lars.active.insert(REQUEST, sim);
    assert!(matches!(task.step(&mut lars, true, at(8)), Action::Uninstall));
    assert_eq!(status_of(&lars, REQUEST), "CleaningUp");
    assert_eq!(task.simulation.end_time, Some(at(8)));
    match task.step(&mut lars, false, at(9)) {
        Action::Close { finish, analyse } => {
            assert!(analyse);
            assert_eq!(finish.events.len(), 2);
            let run = finish.run.unwrap();
            assert_eq!(run.simulation.status, "Completed");
            assert_eq!(run.simulation.start_time, Some(at(6)));
            assert_eq!(run.simulation.end_time, Some(at(8)));
            assert_eq!(run.record.simulation_id, "01234567-89ab-cdef-0011-223344556677");
            assert_eq!(run.record.request_id, "00000000-0000-0000-0000-000000000001");
            assert_eq!(run.record.issue_number, Some(-1));
            assert_eq!(run.record.status, "Completed");
            assert_eq!(run.record.node_count, 300);
            assert_eq!(run.record.start_time, Some(at(6)));
            assert_eq!(run.record.end_time, at(8));
            assert_eq!(run.record.actual_cpu_cores, Some(s(12.5)));
            assert_eq!(run.record.results_url, None);
            let entry = run.entry.unwrap();
            assert_eq!(entry.chart, "waku");
            assert_eq!(f(entry.cpu_cores), 12.5);
            assert_eq!(entry.observed_at, at(8));
            let plan = generate_scrape_plan(&run.simulation);
            assert_eq!(plan.times_names[0], "1970-01-01 00:00:06");
            assert_eq!(plan.times_names[1], "1970-01-01 00:00:08");
        }
        _ => panic!("another action"),
    }
    assert_eq!(lars.active.len(), 0);
    assert_eq!(f(lars.last_finished.as_ref().unwrap().actual_cost.cpu_cores), 12.5);
    assert_eq!(lars.last_finished.as_ref().unwrap().finished_at, at(8));
    assert!(matches!(task.step(&mut lars, true, at(10)), Action::Nothing));
    assert_eq!(task.stage, Stage::Done);
}

fn run_task(fail_at: Stage) -> (Vec<String>, String, bool, bool) {
    let mut lars = Scheduler::new();
    lars.enqueue_mocks(vec![queued(1, "waku", 300, 1.0)]);
    let mut task = Task::new(let_in(&mut lars, 9));
    let mut actions = Vec::new();
    for n in 0..20 {
        let ok = task.stage != fail_at;
        match task.step(&mut lars, ok, at(n)) {
            Action::Close { finish, analyse } => {
                let run = finish.run.unwrap();
                return (actions, run.record.status, analyse, run.entry.is_some());
            }
            action => {
                let name = format!("{:?}", action);
                actions.push(name.split('(').next().unwrap().to_string());
            }
        }
    }
    panic!("the task does not end");
}

#[test]
fn every_task_ends_in_cleanup() {
    let (actions, status, analyse, learned) = run_task(Stage::Writing);
    assert_eq!(actions, vec!["WriteValues", "Uninstall"]);
    assert_eq!(status, "Failed (IO)");
    assert!(!analyse && !learned);
    let (actions, status, analyse, _) = run_task(Stage::Deploying);
    assert_eq!(actions, vec!["WriteValues", "Deploy", "DiscardValues", "Uninstall"]);
    assert_eq!(status, "Failed (Helm)");
    assert!(!analyse);
    let (actions, status, analyse, _) = run_task(Stage::RollingOut);
    assert_eq!(
        actions,
        vec!["WriteValues", "Deploy", "DiscardValues", "AwaitRollout", "Uninstall"]
    );
    assert_eq!(status, "Failed (Rollout)");
    assert!(!analyse);
    let (actions, status, analyse, learned) = run_task(Stage::Done);
    assert_eq!(
        actions,
        vec!["WriteValues", "Deploy", "DiscardValues", "AwaitRollout", "Wait", "Uninstall"]
    );
    assert_eq!(status, "Completed");
    assert!(analyse && !learned);
}

#[test]
fn task_without_values_is_given_up() {
    let mut lars = Scheduler::new();
    lars.enqueue_mocks(vec![queued(1, "waku", 300, 1.0)]);
    let mut task = Task::new(let_in(&mut lars, 9));
    assert!(generate_values_yaml(&task.simulation).is_ok());
    assert!(matches!(task.begin(&mut lars, Err("no".to_string()), at(2)), Action::Uninstall));
    assert_eq!(task.stage, Stage::Removing(Outcome::FailedConfig));
    assert_eq!(status_of(&lars, 9), "CleaningUp");
    match task.step(&mut lars, true, at(4)) {
        Action::Close { finish, analyse } => {
            assert!(!analyse);
            let record = finish.run.unwrap().record;
            assert_eq!(record.status, "Failed (Config)");
            assert_eq!(record.start_time, Some(at(2)));
            assert_eq!(record.end_time, at(4));
        }
        _ => panic!("another action"),
    }
}

#[test]
fn task_of_a_forgotten_simulation_is_not_analysed() {
    let mut lars = Scheduler::new();
    lars.enqueue_mocks(vec![queued(1, "waku", 300, 1.0)]);
    let mut task = Task::new(let_in(&mut lars, 9));
    lars.active.remove(9);
    for n in 0..6 {
        task.step(&mut lars, true, at(n));
    }
    match task.step(&mut lars, true, at(9)) {
        Action::Close { finish, analyse } => {
            assert!(!analyse);
            assert!(finish.run.is_none());
            assert_eq!(finish.events.len(), 1);
        }
        _ => panic!("another action"),
    }
}

#[test]
fn known_times_stand_in_for_those_that_the_task_lacks() {
    let mut lars = Scheduler::new();
    lars.enqueue_mocks(vec![queued(1, "waku", 300, 1.0)]);
    let sim = let_in(&mut lars, 9);
    let mut known = lars.active.remove(9).unwrap();
    known.start_time = Some(at(2));
    known.end_time = Some(at(3));
    lars.active.insert(9, known);
    let record = lars.finish_simulation(&sim, "Completed", at(5)).run.unwrap().record;
    assert_eq!(record.start_time, Some(at(2)));
    assert_eq!(record.end_time, at(3));
}

#[test]
fn finishing_twice_changes_nothing_more() {
    let mut lars = Scheduler::new();
    lars.enqueue_mocks(vec![queued(1, "waku", 300, 1.0)]);
    let sim = let_in(&mut lars, 9);
    let finish = lars.finish_simulation(&sim, "Failed (Helm)", at(5));
    let run = finish.run.unwrap();
    assert!(run.entry.is_none());
    assert_eq!(run.record.actual_cpu_cores, None);
    let last = lars.last_finished.as_ref().unwrap();
    assert_eq!(last.actual_cost, last.predicted_cost);
    let before = format!("{:?}", lars);
    assert!(lars.finish_simulation(&sim, "Failed (Helm)", at(6)).run.is_none());
    assert_eq!(format!("{:?}", lars), before);
}
