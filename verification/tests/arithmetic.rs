use lars::admission::{HUNDRED, MEMORY_LIMIT, QUEUE_CPU_LIMIT, REQUEST_CPU_LIMIT};
use lars::exact::{compare_exactly, Tally};
use lars::model::{
    ClusterUtilization, KubernetesMetrics, NamespaceUtilization, ResourceCost, CLUSTER_CPU_CORES,
    CLUSTER_MEMORY_GB, NAMESPACE_CPU_CORES, NAMESPACE_MEMORY_GB,
};
use lars::pricing::{
    COST_PER_CPU_CORE_HOUR, COST_PER_MEMORY_GB_HOUR, MAX_RATIO, MIN_RATIO, ONE, OTHER_CPU_PER_NODE,
    OTHER_MEMORY_PER_NODE, SECONDS_PER_HOUR, WAKU_CPU_PER_NODE, WAKU_MEMORY_PER_NODE,
};
use lars::queue::{
    MOCK_CPU_PER_NODE, MOCK_CPU_SHIFT, MOCK_CPU_SPREAD, MOCK_MEMORY_PER_NODE, MOCK_MEMORY_SHIFT,
    MOCK_MEMORY_SPREAD, THOUSAND,
};
use lars::single::Single;
use lars::text::{decimal_text, one_decimal_text, same};

fn s(x: f32) -> Single {
    Single { bits: x.to_bits() }
}

fn f(x: Single) -> f32 {
    f32::from_bits(x.bits)
}

fn agree(ours: Single, native: f32) -> bool {
    if native.is_nan() {
        f(ours).is_nan()
    } else {
        ours.bits == native.to_bits()
    }
}

fn samples() -> Vec<f32> {
    let mut v: Vec<f32> = vec![
        0.0,
        1.0,
        0.1,
        0.5,
        2.0,
        3.0,
        100.0,
        1000.0,
        3600.0,
        1812.0,
        2978.0,
        1e-45,
        3e-45,
        1.1754942e-38,
        1.1754944e-38,
        5.877472e-39,
        3.4028235e38,
        1.7014118e38,
        1e30,
        1e-30,
        16777215.0,
        16777216.0,
        f32::INFINITY,
        f32::NAN,
    ];
    let mut state: u32 = 12345;
    for _ in 0..60 {
        state = state.wrapping_mul(1664525).wrapping_add(1013904223);
        v.push(f32::from_bits(state & 0x7fff_ffff));
        v.push((state >> 8) as f32 / 65536.0);
    }
    let negative: Vec<f32> = v.iter().map(|x| -x).collect();
    v.extend(negative);
    v
}

#[test]
fn products_agree_with_the_machine() {
    for &a in &samples() {
        for &b in &samples() {
            assert!(agree(s(a).times(s(b)), a * b), "{} * {}", a, b);
        }
    }
}

#[test]
fn quotients_agree_with_the_machine() {
    for &a in &samples() {
        for &b in &samples() {
            assert!(agree(s(a).over(s(b)), a / b), "{} / {}", a, b);
        }
    }
}

#[test]
fn sums_agree_with_the_machine() {
    for &a in &samples() {
        for &b in &samples() {
            assert!(agree(s(a).plus(s(b)), a + b), "{} + {}", a, b);
            assert!(agree(s(a).minus(s(b)), a - b), "{} - {}", a, b);
        }
    }
}

#[test]
fn comparisons_agree_with_the_machine() {
    for &a in &samples() {
        for &b in &samples() {
            assert_eq!(s(a).at_most(s(b)), a <= b);
            assert_eq!(s(a).below(s(b)), a < b);
        }
    }
}

#[test]
fn whole_numbers_agree_with_the_machine() {
    let whole: [i64; 12] = [
        0,
        1,
        -1,
        999,
        16777216,
        16777217,
        16777219,
        -16777219,
        i64::MAX,
        i64::MIN,
        4294967295,
        123456789012,
    ];
    for n in whole {
        assert_eq!(Single::from_i64(n).bits, (n as f32).to_bits());
    }
    for n in [0u32, 1, 1000, 33553999, u32::MAX] {
        assert_eq!(Single::from_u32(n).bits, (n as f32).to_bits());
    }
    for &a in &samples() {
        assert_eq!(s(a).truncate(), a as u32, "{}", a);
    }
}

#[test]
fn one_digit_after_the_point_agrees_with_the_machine() {
    for &a in &samples() {
        assert_eq!(one_decimal_text(s(a)), format!("{:.1}", a));
    }
    for i in 0..2000u32 {
        let a = i as f32 / 80.0;
        assert_eq!(one_decimal_text(s(a)), format!("{:.1}", a));
    }
    assert_eq!(one_decimal_text(s(30.0)), "30.0");
    assert_eq!(one_decimal_text(s(0.25)), "0.2");
    assert_eq!(one_decimal_text(s(0.75)), "0.8");
    assert_eq!(one_decimal_text(s(-0.0)), "-0.0");
    assert_eq!(one_decimal_text(s(f32::NEG_INFINITY)), "-inf");
    assert_eq!(one_decimal_text(s(f32::NAN)), "NaN");
}

#[test]
fn tallies_do_not_round() {
    let mut a = Tally::new();
    let mut b = Tally::new();
    assert!(a.at_most(&b) && b.at_most(&a));
    let mut state: u64 = 99;
    let (mut x, mut y): (u128, u128) = (0, 0);
    for _ in 0..200 {
        state = state.wrapping_mul(6364136223846793005).wrapping_add(1442695040888963407);
        let (m, e) = (state >> 32, (state % 80) as u32);
        if state % 3 == 0 {
            a.add(m, e);
            x += (m as u128) << e;
        } else {
            b.add(m, e);
            y += (m as u128) << e;
        }
        assert_eq!(a.at_most(&b), x <= y);
        assert_eq!(b.at_most(&a), y <= x);
    }
    let mut c = Tally::new();
    let mut d = Tally::new();
    c.add(u64::MAX, 600);
    c.add(1, 600);
    d.add(1, 664);
    assert!(c.at_most(&d) && d.at_most(&c));
    c.add(1, 0);
    assert!(!c.at_most(&d) && d.at_most(&c));
}

#[test]
fn exact_shares_are_compared_without_rounding() {
    let parts = |v: &[f32]| -> Vec<Single> { v.iter().map(|x| s(*x)).collect() };
    let share = |v: &[f32], total: f32, limit: f32| compare_exactly(&parts(v), s(total), s(limit));
    assert_eq!(share(&[290.0, 10.0], 1000.0, 30.0), Some(true));
    assert_eq!(share(&[290.0, 10.0, 1e-45], 1000.0, 30.0), Some(false));
    assert_eq!(share(&[290.0, 10.0, 1e-45, -2e-45], 1000.0, 30.0), Some(true));
    assert_eq!(share(&[16777216.0, 1.0], 16777216.0, 100.0), Some(false));
    assert_eq!(share(&[850.0], 999.99994, 85.0), Some(false));
    assert_eq!(share(&[3.4e38, 3.4e38], 3.4e38, 200.0), Some(true));
    assert_eq!(share(&[-1.0], 100.0, -1.0), Some(true));
    assert_eq!(share(&[-0.5], 100.0, -1.0), Some(false));
    assert_eq!(share(&[], 1.0, 0.0), Some(true));
    assert_eq!(share(&[f32::NAN], 1.0, 30.0), None);
    assert_eq!(share(&[f32::INFINITY], 1.0, 30.0), None);
    assert_eq!(share(&[1.0], 0.0, 30.0), None);
    assert_eq!(share(&[1.0], -1.0, 30.0), None);
    assert_eq!(share(&[1.0], 1.0, f32::INFINITY), None);
}

#[test]
fn constants_are_what_they_are_called() {
    assert_eq!(COST_PER_CPU_CORE_HOUR, 0.01f32.to_bits());
    assert_eq!(COST_PER_MEMORY_GB_HOUR, 0.005f32.to_bits());
    assert_eq!(SECONDS_PER_HOUR, 3600.0f32.to_bits());
    assert_eq!(WAKU_CPU_PER_NODE, 0.1f32.to_bits());
    assert_eq!(WAKU_MEMORY_PER_NODE, 0.05f32.to_bits());
    assert_eq!(OTHER_CPU_PER_NODE, 0.08f32.to_bits());
    assert_eq!(OTHER_MEMORY_PER_NODE, 0.04f32.to_bits());
    assert_eq!(ONE, 1.0f32.to_bits());
    assert_eq!(MIN_RATIO, 0.5f32.to_bits());
    assert_eq!(MAX_RATIO, 2.0f32.to_bits());
    assert_eq!(HUNDRED, 100.0f32.to_bits());
    assert_eq!(REQUEST_CPU_LIMIT, 30.0f32.to_bits());
    assert_eq!(QUEUE_CPU_LIMIT, 80.0f32.to_bits());
    assert_eq!(MEMORY_LIMIT, 85.0f32.to_bits());
    assert_eq!(CLUSTER_CPU_CORES, 1812.0f32.to_bits());
    assert_eq!(CLUSTER_MEMORY_GB, 2978.0f32.to_bits());
    assert_eq!(NAMESPACE_CPU_CORES, 256.0f32.to_bits());
    assert_eq!(NAMESPACE_MEMORY_GB, 1024.0f32.to_bits());
    assert_eq!(MOCK_CPU_PER_NODE, 0.18f32.to_bits());
    assert_eq!(MOCK_CPU_SPREAD, 0.04f32.to_bits());
    assert_eq!(MOCK_CPU_SHIFT, 0.02f32.to_bits());
    assert_eq!(MOCK_MEMORY_PER_NODE, 0.05f32.to_bits());
    assert_eq!(MOCK_MEMORY_SPREAD, 0.02f32.to_bits());
    assert_eq!(MOCK_MEMORY_SHIFT, 0.01f32.to_bits());
    assert_eq!(THOUSAND, 1000.0f32.to_bits());
}

#[test]
fn nothing_is_in_use_by_default() {
    let cost = ResourceCost::default();
    assert_eq!(f(cost.cpu_cores), 0.0);
    assert_eq!(f(cost.memory_gb), 0.0);
    assert_eq!(cost.monetary_cost_eur, None);
    let cluster = ClusterUtilization::default();
    assert_eq!(f(cluster.total_cpu_cores), 1812.0);
    assert_eq!(f(cluster.total_memory_gb), 2978.0);
    assert_eq!(f(cluster.used_cpu_cores), 0.0);
    assert_eq!(f(cluster.used_memory_gb), 0.0);
    assert_eq!(f(cluster.cpu_percent), 0.0);
    assert_eq!(f(cluster.memory_percent), 0.0);
    let namespace = NamespaceUtilization::default();
    assert_eq!(f(namespace.allocated_cpu_cores), 256.0);
    assert_eq!(f(namespace.allocated_memory_gb), 1024.0);
    assert_eq!(f(namespace.cluster_total_cpu), 0.0);
    let metrics = KubernetesMetrics::default();
    assert_eq!(metrics.namespace, "larstesting");
    assert_eq!(f(metrics.cluster_total_cpu), 1812.0);
    assert_eq!(f(metrics.namespace_cpu_limits), 256.0);
}

#[test]
fn numbers_are_written_in_decimal() {
    assert_eq!(decimal_text(0), "0");
    assert_eq!(decimal_text(1234567890), "1234567890");
    assert_eq!(decimal_text(u128::MAX), u128::MAX.to_string());
    assert!(same("waku", "waku"));
    assert!(!same("waku", "wakU"));
}
