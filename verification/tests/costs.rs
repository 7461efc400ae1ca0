use lars::model::{ResourceCost, SimulationParams};
use lars::pricing::{
    calculate_monetary_cost, can_predict, check_observed, cost_by_default, predict_cost,
    predict_from_history, scale_cost, with_price, Basis, HistoryLookup, HistoryRow,
};
use lars::single::Single;

fn s(x: f32) -> Single {
    Single { bits: x.to_bits() }
}

fn f(x: Single) -> f32 {
    f32::from_bits(x.bits)
}

fn cost(cpu: f32, memory: f32) -> ResourceCost {
    ResourceCost { cpu_cores: s(cpu), memory_gb: s(memory), monetary_cost_eur: None }
}

fn params(chart: &str, node_count: u32) -> SimulationParams {
    SimulationParams { chart: chart.to_string(), node_count, duration_secs: 600 }
}

fn empty_row() -> HistoryRow {
    HistoryRow {
        em_cpu: None,
        em_mem: None,
        em_nodes: None,
        cl_cpu: None,
        cl_mem: None,
        cl_nodes: None,
        ch_cpu: None,
        ch_mem: None,
        ch_nodes: None,
    }
}

fn neighbours(low: Option<i64>, high: Option<i64>) -> HistoryRow {
    let mut row = empty_row();
    if let Some(n) = low {
        row.cl_cpu = Some(s(10.0));
        row.cl_mem = Some(s(5.0));
        row.cl_nodes = Some(n);
    }
    if let Some(n) = high {
        row.ch_cpu = Some(s(30.0));
        row.ch_mem = Some(s(15.0));
        row.ch_nodes = Some(n);
    }
    row
}

#[test]
fn prices_follow_the_hours() {
    let c = cost(100.0, 50.0);
    let hours = 7200.0f32 / 3600.0;
    let expected = 100.0f32 * 0.01 * hours + 50.0f32 * 0.005 * hours;
    assert_eq!(f(calculate_monetary_cost(&c, 7200)), expected);
    assert_eq!(f(calculate_monetary_cost(&c, 7200)), 2.5);
    assert_eq!(f(calculate_monetary_cost(&c, 0)), 0.0);
    let priced = with_price(&c, 7200);
    assert_eq!(priced.monetary_cost_eur, Some(s(2.5)));
    assert_eq!(priced.cpu_cores, c.cpu_cores);
}

#[test]
fn prices_never_fall() {
    let price = |cpu: f32, memory: f32, secs: u32| {
        f(calculate_monetary_cost(&cost(cpu, memory), secs))
    };
    let amounts = [0.0f32, 1e-45, 0.1, 1.0, 1812.0, 1e30, 3.4e38];
    for a in amounts {
        for b in amounts {
            for secs in [0u32, 1, 59, 3600, 3601, u32::MAX] {
                let p = price(a, b, secs);
                assert!(p >= 0.0);
                for c in amounts {
                    assert!(c < a || p <= price(c, b, secs));
                    assert!(c < b || p <= price(a, c, secs));
                }
                assert!(p <= price(a, b, u32::MAX));
                assert_eq!(price(a, b, 0), 0.0);
                assert_eq!(price(0.0, 0.0, secs), 0.0);
            }
        }
    }
    assert!(price(-0.0, 1.0, 60) <= price(0.0, 1.0, 60));
    assert_eq!(price(-0.0, -0.0, 60), 0.0);
    let again = with_price(&with_price(&cost(3.0, 4.0), 60), 60);
    assert_eq!(again, with_price(&cost(3.0, 4.0), 60));
}

#[test]
fn charts_without_history_have_default_costs() {
    let waku = cost_by_default(&params("waku", 50));
    assert_eq!(f(waku.cpu_cores), 50.0f32 * 0.1);
    assert_eq!(f(waku.memory_gb), 50.0f32 * 0.05);
    let other = cost_by_default(&params("nimlibp2p", 50));
    assert_eq!(f(other.cpu_cores), 50.0f32 * 0.08);
    assert_eq!(f(other.memory_gb), 50.0f32 * 0.04);
    assert_eq!(predict_cost(&params("waku", 50)), Ok(waku));
}

#[test]
fn exact_history_is_used_as_it_is() {
    let mut row = neighbours(Some(90), Some(110));
    row.em_cpu = Some(s(7.25));
    row.em_mem = Some(s(3.5));
    row.em_nodes = Some(100);
    let lookup: HistoryLookup = Ok(Some(row));
    assert_eq!(row.choose_basis(100), Basis::Exact);
    assert_eq!(predict_from_history(&params("waku", 100), &lookup), cost(7.25, 3.5));
}

#[test]
fn closer_neighbour_is_scaled_and_ties_go_to_the_lower() {
    let p = params("waku", 100);
    let tie = neighbours(Some(80), Some(120));
    assert_eq!(tie.choose_basis(100), Basis::Lower);
    let r = predict_from_history(&p, &Ok(Some(tie)));
    assert_eq!(f(r.cpu_cores), 10.0f32 * (100.0f32 / 80.0));
    assert_eq!(f(r.memory_gb), 5.0f32 * (100.0f32 / 80.0));
    let high = neighbours(Some(79), Some(120));
    assert_eq!(high.choose_basis(100), Basis::Higher);
    let r = predict_from_history(&p, &Ok(Some(high)));
    assert_eq!(f(r.cpu_cores), 30.0f32 * (100.0f32 / 120.0));
    assert_eq!(neighbours(Some(3), None).choose_basis(100), Basis::Lower);
    assert_eq!(neighbours(None, Some(3000)).choose_basis(100), Basis::Higher);
    let only_low = predict_from_history(&p, &Ok(Some(neighbours(Some(3), None))));
    assert_eq!(f(only_low.cpu_cores), 10.0f32 * (100.0f32 / 3.0));
    let only_high = predict_from_history(&p, &Ok(Some(neighbours(None, Some(3000)))));
    assert_eq!(f(only_high.memory_gb), 15.0f32 * (100.0f32 / 3000.0));
}

#[test]
fn missing_history_and_failures_mean_the_default() {
    let p = params("waku", 100);
    let default = cost_by_default(&p);
    assert_eq!(empty_row().choose_basis(100), Basis::Default);
    assert_eq!(predict_from_history(&p, &Ok(Some(empty_row()))), default);
    assert_eq!(predict_from_history(&p, &Ok(None)), default);
    assert_eq!(predict_from_history(&p, &Err("locked".to_string())), default);
}

#[test]
fn incomplete_neighbours_cannot_be_used() {
    let mut row = neighbours(Some(80), None);
    row.cl_mem = None;
    assert!(!can_predict(&Ok(Some(row)), 100));
    assert!(can_predict(&Ok(Some(neighbours(Some(80), None))), 100));
    assert!(can_predict(&Ok(None), 100));
    let mut row = neighbours(None, Some(80));
    row.ch_cpu = None;
    assert!(!row.is_usable(100));
}

#[test]
fn scaling_to_the_same_size_changes_nothing() {
    assert_eq!(scale_cost(s(12.34), s(5.6), 777, 777), cost(12.34, 5.6));
    let r = scale_cost(s(12.0), s(6.0), 100, 50);
    assert_eq!(r, cost(6.0, 3.0));
    assert!(f(scale_cost(s(1.0), s(1.0), 0, 5).cpu_cores).is_infinite());
}

#[test]
fn more_nodes_are_not_expected_to_cost_less() {
    for n in [0u32, 1, 999, 16777216, 16777217, u32::MAX - 1] {
        let a = cost_by_default(&params("waku", n));
        let b = cost_by_default(&params("waku", n + 1));
        assert!(a.cpu_cores.at_most(b.cpu_cores));
        assert!(a.memory_gb.at_most(b.memory_gb));
    }
}

#[test]
fn observed_costs_are_believed_within_a_factor_of_two() {
    let estimate = cost(10.0, 4.0);
    let mut priced = cost(20.0, 2.0);
    priced.monetary_cost_eur = Some(s(1.0));
    assert_eq!(check_observed(estimate, &Ok(Some(priced))), cost(20.0, 2.0));
    assert_eq!(check_observed(estimate, &Ok(Some(cost(20.5, 4.0)))), estimate);
    assert_eq!(check_observed(estimate, &Ok(Some(cost(10.0, 1.9)))), estimate);
    assert_eq!(check_observed(estimate, &Ok(None)), estimate);
    assert_eq!(check_observed(estimate, &Err("busy".to_string())), estimate);
    let nothing = cost(0.0, 0.0);
    assert_eq!(check_observed(nothing, &Ok(Some(cost(99.0, 99.0)))), cost(99.0, 99.0));
}
