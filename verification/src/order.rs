//! Arithmetic on amounts keeps their order: more of something never counts for less.

use crate::admission::{percent, with_cost, within_target, Limits, HUNDRED};
use crate::exact::{all_finite, comparable, lemma_sign, lemma_sum_concat, sum_of};
use crate::model::{ClusterUtilization, ResourceCost, SimulationParamsView};
use crate::pricing::{
    default_cost, hours, monetary_cost, priced, scaled, COST_PER_CPU_CORE_HOUR,
    COST_PER_MEMORY_GB_HOUR, ONE, SECONDS_PER_HOUR,
};
use crate::queue::{size_label, THOUSAND};
use crate::requests::{
    approved_costs, cpu_fits, cpu_parts, memory_fits, memory_parts, total_cost,
};
use crate::rounding::{
    half_even, lemma_half_even_bounds, lemma_pow2_monotone, lemma_round_same_ratio, lemma_scale,
    lemma_scale_fits, round, scale, BINADE, INFINITE,
};
use crate::single::{lemma_steps_increase, signed, steps, Single};
use crate::state::SchedulerView;
use crate::text::decimal;
use vstd::arithmetic::div_mod::{lemma_fundamental_div_mod, lemma_fundamental_div_mod_converse};
use vstd::arithmetic::power2::{lemma2_to64, lemma_pow2_adds, lemma_pow2_pos, pow2};
use vstd::prelude::*;

verus! {

/// A larger number does not round to a smaller integer.
proof fn lemma_half_even_monotone(m: nat, n: nat, d: nat)
    requires
        d > 0,
        m <= n,
    ensures
        half_even(m, d) <= half_even(n, d),
{
    let (p, r): (int, int) = (m as int / d as int, m as int % d as int);
    let (q, s): (int, int) = (n as int / d as int, n as int % d as int);
    lemma_fundamental_div_mod(m as int, d as int);
    lemma_fundamental_div_mod(n as int, d as int);
    assert(p <= q) by (nonlinear_arith)
        requires
            m == d * p + r,
            n == d * q + s,
            0 <= r,
            s < d,
            m <= n,
            d > 0,
    ;
    if p == q {
        assert(r <= s);
    }
}

/// A larger ratio does not round to a smaller magnitude.
pub proof fn lemma_round_monotone(m: nat, n: nat, d: nat)
    requires
        d > 0,
        m <= n,
    ensures
        round(m, d) <= round(n, d),
{
    reveal(round);
    let t: nat = scale(m, d, 0);
    let u: nat = scale(n, d, 0);
    lemma_scale_fits(m, d, 0);
    lemma_scale_fits(n, d, 0);
    lemma_pow2_pos(t);
    lemma_pow2_pos(u);
    lemma2_to64();
    let a: nat = pow2(t);
    let b: nat = pow2(u);
    assert(d * a > 0 && d * b > 0) by (nonlinear_arith)
        requires
            d > 0,
            a > 0,
            b > 0,
    ;
    if t == u {
        lemma_half_even_monotone(m, n, d * a);
    } else if t > u {
        lemma_pow2_monotone(24 + u, (23 + t) as nat);
        let hi: nat = pow2((23 + t) as nat);
        let lo: nat = pow2(24 + u);
        assert(d * lo <= d * hi) by (nonlinear_arith)
            requires
                lo <= hi,
        ;
    } else {
        lemma_pow2_adds(24, t);
        lemma_pow2_adds(23, u);
        assert(d * (0x100_0000 * a) == 0x100_0000 * (d * a)) by (nonlinear_arith);
        assert(d * (0x80_0000 * b) == 0x80_0000 * (d * b)) by (nonlinear_arith);
        lemma_half_even_bounds(m, d * a, 0x100_0000);
        lemma_half_even_bounds(n, d * b, 0x80_0000);
    }
}

/// A magnitude is what its own value rounds to.
pub proof fn lemma_round_exact(m: nat)
    requires
        m <= INFINITE,
    ensures
        round(steps(m), 1) == m,
{
    reveal(round);
    lemma2_to64();
    if m < BINADE {
        lemma_scale(m, 1, 0, 0);
        assert(1 * pow2(0) == 1);
        assert(half_even(m, 1) == m);
    } else {
        let t: nat = (m / BINADE as nat - 1) as nat;
        let sig: nat = BINADE as nat + m % BINADE as nat;
        let p: nat = pow2(t);
        lemma_pow2_pos(t);
        lemma_pow2_adds(24, t);
        lemma_pow2_adds(23, t);
        assert(0x80_0000 * p <= sig * p < 0x100_0000 * p) by (nonlinear_arith)
            requires
                0x80_0000 <= sig < 0x100_0000,
                p > 0,
        ;
        lemma_scale(steps(m), 1, 0, t);
        lemma_fundamental_div_mod_converse(steps(m) as int, p as int, sig as int, 0);
        assert(half_even(steps(m), 1 * p) == sig);
    }
}

/// No rounding goes past infinity.
pub proof fn lemma_round_bound(n: nat, d: nat)
    ensures
        round(n, d) <= INFINITE,
{
    reveal(round);
}

impl Single {
    /// Whether this is an amount of something: a number that is not below zero. A zero may have
    /// either sign.
    pub open spec fn is_amount(self) -> bool {
        !self.is_nan() && (self.negative() ==> self.is_zero())
    }

    /// Whether this is an amount with an end.
    pub open spec fn is_finite_amount(self) -> bool {
        self.is_amount() && !self.is_infinite()
    }
}

impl ResourceCost {
    /// Whether this is a cost in amounts.
    pub open spec fn in_amounts(self) -> bool {
        self.cpu_cores.is_amount() && self.memory_gb.is_amount()
    }

    /// Whether this is a cost in amounts with an end.
    pub open spec fn in_finite_amounts(self) -> bool {
        self.cpu_cores.is_finite_amount() && self.memory_gb.is_finite_amount()
    }

    /// Whether no more is used of anything than by another cost.
    pub open spec fn at_most(self, other: ResourceCost) -> bool {
        self.cpu_cores.le(other.cpu_cores) && self.memory_gb.le(other.memory_gb)
    }
}

/// Amounts are ordered as their magnitudes are.
proof fn lemma_amounts(a: Single, b: Single)
    requires
        a.is_amount(),
        b.is_amount(),
    ensures
        a.le(b) <==> a.magnitude() <= b.magnitude(),
        a.magnitude() <= b.magnitude() ==> steps(a.magnitude()) <= steps(b.magnitude()),
{
    let (m, n): (nat, nat) = (a.magnitude(), b.magnitude());
    if m < n {
        lemma_steps_increase(m, n);
    }
    if n < m {
        lemma_steps_increase(n, m);
    }
}

/// What a sum of amounts is.
pub proof fn lemma_sum_of_amounts(a: Single, b: Single)
    requires
        a.is_amount(),
        b.is_amount(),
    ensures
        a.sum(b).is_amount(),
        a.sum(b).magnitude() == if a.is_infinite() || b.is_infinite() {
            INFINITE as nat
        } else {
            round(steps(a.magnitude()) + steps(b.magnitude()), 1)
        },
{
    let n: nat = steps(a.magnitude()) + steps(b.magnitude());
    lemma_round_bound(n, 1);
    if n == 0 {
        lemma_round_exact(0);
    }
}

/// A sum is at least each of its parts.
proof fn lemma_sum_grows(a: Single, b: Single)
    requires
        a.is_amount(),
        b.is_amount(),
    ensures
        a.sum(b).is_amount(),
        a.le(a.sum(b)),
{
    lemma_sum_of_amounts(a, b);
    if !a.is_infinite() && !b.is_infinite() {
        lemma_round_exact(a.magnitude());
        lemma_round_monotone(
            steps(a.magnitude()),
            steps(a.magnitude()) + steps(b.magnitude()),
            1,
        );
    }
    lemma_amounts(a, a.sum(b));
}

/// Larger parts do not make a smaller sum.
proof fn lemma_sum_monotone(a: Single, b: Single, c: Single, d: Single)
    requires
        a.is_amount(),
        b.is_amount(),
        c.is_amount(),
        d.is_amount(),
        a.le(c),
        b.le(d),
    ensures
        a.sum(b).is_amount(),
        c.sum(d).is_amount(),
        a.sum(b).le(c.sum(d)),
{
    lemma_sum_of_amounts(a, b);
    lemma_sum_of_amounts(c, d);
    lemma_amounts(a, c);
    lemma_amounts(b, d);
    lemma_round_bound(steps(a.magnitude()) + steps(b.magnitude()), 1);
    if !c.is_infinite() && !d.is_infinite() {
        lemma_round_monotone(
            steps(a.magnitude()) + steps(b.magnitude()),
            steps(c.magnitude()) + steps(d.magnitude()),
            1,
        );
    }
    lemma_amounts(a.sum(b), c.sum(d));
}

/// What a product of amounts is.
pub proof fn lemma_product_of_amounts(a: Single, b: Single)
    requires
        a.is_amount(),
        b.is_amount(),
        a.is_infinite() ==> !b.is_zero(),
        b.is_infinite() ==> !a.is_zero(),
    ensures
        a.product(b).is_amount(),
        a.product(b).magnitude() == if a.is_infinite() || b.is_infinite() {
            INFINITE as nat
        } else {
            round(steps(a.magnitude()) * steps(b.magnitude()), pow2(149))
        },
        !a.negative() && !b.negative() ==> !a.product(b).negative(),
{
    let (m, n): (nat, nat) = (steps(a.magnitude()), steps(b.magnitude()));
    lemma_pow2_pos(149);
    lemma_round_bound(m * n, pow2(149));
    lemma_round_zero(pow2(149));
    assert(m == 0 || n == 0 ==> m * n == 0) by (nonlinear_arith);
}

/// What a share of an amount is.
pub proof fn lemma_quotient_of_amount(a: Single, total: Single)
    requires
        a.is_amount(),
        total.is_amount(),
        !total.is_infinite(),
        !total.is_zero(),
    ensures
        a.quotient(total).is_amount(),
        a.quotient(total).magnitude() == if a.is_infinite() {
            INFINITE as nat
        } else {
            round(steps(a.magnitude()) * pow2(149), steps(total.magnitude()))
        },
        !a.negative() && !total.negative() ==> !a.quotient(total).negative(),
{
    lemma_steps_increase(0, total.magnitude());
    lemma_round_bound(steps(a.magnitude()) * pow2(149), steps(total.magnitude()));
    lemma_round_zero(steps(total.magnitude()));
    assert(0 * pow2(149) == 0);
}

/// A larger amount does not make a smaller multiple.
proof fn lemma_product_monotone(a: Single, b: Single, factor: Single)
    requires
        a.is_amount(),
        b.is_amount(),
        a.le(b),
        factor.is_amount(),
        !factor.is_infinite(),
        !factor.is_zero(),
    ensures
        a.product(factor).is_amount(),
        b.product(factor).is_amount(),
        a.product(factor).le(b.product(factor)),
{
    lemma_amounts(a, b);
    lemma_pow2_pos(149);
    let m: nat = steps(a.magnitude());
    let n: nat = steps(b.magnitude());
    let f: nat = steps(factor.magnitude());
    lemma_product_of_amounts(a, factor);
    lemma_product_of_amounts(b, factor);
    lemma_round_bound(m * f, pow2(149));
    if !b.is_infinite() {
        assert(m * f <= n * f) by (nonlinear_arith)
            requires
                m <= n,
        ;
        lemma_round_monotone(m * f, n * f, pow2(149));
    }
    lemma_amounts(a.product(factor), b.product(factor));
}

/// A larger amount does not make a smaller share.
pub proof fn lemma_quotient_monotone(a: Single, b: Single, total: Single)
    requires
        a.is_amount(),
        b.is_amount(),
        a.le(b),
        total.is_amount(),
        !total.is_infinite(),
        !total.is_zero(),
    ensures
        a.quotient(total).is_amount(),
        b.quotient(total).is_amount(),
        a.quotient(total).le(b.quotient(total)),
{
    lemma_amounts(a, b);
    lemma_steps_increase(0, total.magnitude());
    let m: nat = steps(a.magnitude());
    let n: nat = steps(b.magnitude());
    let p: nat = pow2(149);
    let t: nat = steps(total.magnitude());
    lemma_quotient_of_amount(a, total);
    lemma_quotient_of_amount(b, total);
    lemma_round_bound(m * p, t);
    if !b.is_infinite() {
        assert(m * p <= n * p) by (nonlinear_arith)
            requires
                m <= n,
        ;
        lemma_round_monotone(m * p, n * p, t);
    }
    lemma_amounts(a.quotient(total), b.quotient(total));
}

/// Whether the measured use of a cluster, and what it has, are amounts that a share can be
/// taken of.
pub open spec fn measurable(cluster: ClusterUtilization) -> bool {
    &&& cluster.used_cpu_cores.is_amount()
    &&& cluster.used_memory_gb.is_amount()
    &&& cluster.total_cpu_cores.is_amount()
    &&& cluster.total_memory_gb.is_amount()
    &&& !cluster.total_cpu_cores.is_infinite()
    &&& !cluster.total_memory_gb.is_infinite()
    &&& !cluster.total_cpu_cores.is_zero()
    &&& !cluster.total_memory_gb.is_zero()
}

/// A larger use is not a smaller share in percent.
proof fn lemma_percent_monotone(a: Single, b: Single, total: Single)
    requires
        a.is_amount(),
        b.is_amount(),
        a.le(b),
        total.is_amount(),
        !total.is_infinite(),
        !total.is_zero(),
    ensures
        percent(a, total).is_amount(),
        percent(b, total).is_amount(),
        percent(a, total).le(percent(b, total)),
{
    lemma_quotient_monotone(a, b, total);
    lemma_product_monotone(a.quotient(total), b.quotient(total), Single { bits: HUNDRED });
}

/// Where a simulation may run, one that costs no more may run too.
pub proof fn cheaper_simulations_fit_too(
    cluster: ClusterUtilization,
    cost: ResourceCost,
    dearer: ResourceCost,
    limits: Limits,
)
    requires
        measurable(cluster),
        cost.in_amounts(),
        dearer.in_amounts(),
        cost.at_most(dearer),
        with_cost(cluster, dearer).within(limits),
    ensures
        with_cost(cluster, cost).within(limits),
{
    let (cpu, memory): (Single, Single) = (cluster.used_cpu_cores, cluster.used_memory_gb);
    lemma_sum_monotone(cpu, cost.cpu_cores, cpu, dearer.cpu_cores);
    lemma_sum_monotone(memory, cost.memory_gb, memory, dearer.memory_gb);
    lemma_percent_monotone(
        cpu.sum(cost.cpu_cores),
        cpu.sum(dearer.cpu_cores),
        cluster.total_cpu_cores,
    );
    lemma_percent_monotone(
        memory.sum(cost.memory_gb),
        memory.sum(dearer.memory_gb),
        cluster.total_memory_gb,
    );
}

/// Whether all costs are in amounts.
pub open spec fn all_amounts(costs: Seq<ResourceCost>) -> bool {
    forall|i: int| 0 <= i < costs.len() ==> (#[trigger] costs[i]).in_amounts()
}

/// A total of amounts is in amounts.
proof fn lemma_total_in_amounts(cost: ResourceCost, further: Seq<ResourceCost>)
    requires
        cost.in_amounts(),
        all_amounts(further),
    ensures
        total_cost(cost, further).in_amounts(),
    decreases further.len(),
{
    if further.len() > 0 {
        let init: Seq<ResourceCost> = further.drop_last();
        assert forall|i: int| 0 <= i < init.len() implies (#[trigger] init[i]).in_amounts() by {
            assert(init[i] == further[i]);
        }
        lemma_total_in_amounts(cost, init);
        let sub: ResourceCost = total_cost(cost, init);
        assert(further.last().in_amounts());
        lemma_sum_of_amounts(sub.cpu_cores, further.last().cpu_cores);
        lemma_sum_of_amounts(sub.memory_gb, further.last().memory_gb);
    }
}

/// One more cost in between does not make a total smaller.
pub proof fn more_costs_more(
    cost: ResourceCost,
    first: Seq<ResourceCost>,
    one_more: ResourceCost,
    rest: Seq<ResourceCost>,
)
    requires
        cost.in_amounts(),
        all_amounts(first),
        one_more.in_amounts(),
        all_amounts(rest),
    ensures
        total_cost(cost, first + rest).in_amounts(),
        total_cost(cost, first.push(one_more) + rest).in_amounts(),
        total_cost(cost, first + rest).at_most(total_cost(cost, first.push(one_more) + rest)),
        one_more.cpu_cores.is_infinite() ==> total_cost(
            cost,
            first.push(one_more) + rest,
        ).cpu_cores.is_infinite(),
        one_more.memory_gb.is_infinite() ==> total_cost(
            cost,
            first.push(one_more) + rest,
        ).memory_gb.is_infinite(),
    decreases rest.len(),
{
    if rest.len() == 0 {
        assert(first + rest =~= first);
        assert(first.push(one_more) + rest =~= first.push(one_more));
        assert(first.push(one_more).drop_last() =~= first);
        lemma_total_in_amounts(cost, first);
        let sub: ResourceCost = total_cost(cost, first);
        lemma_sum_grows(sub.cpu_cores, one_more.cpu_cores);
        lemma_sum_grows(sub.memory_gb, one_more.memory_gb);
        lemma_sum_of_amounts(sub.cpu_cores, one_more.cpu_cores);
        lemma_sum_of_amounts(sub.memory_gb, one_more.memory_gb);
    } else {
        let init: Seq<ResourceCost> = rest.drop_last();
        let last: ResourceCost = rest.last();
        assert forall|i: int| 0 <= i < init.len() implies (#[trigger] init[i]).in_amounts() by {
            assert(init[i] == rest[i]);
        }
        more_costs_more(cost, first, one_more, init);
        assert((first + rest).drop_last() =~= first + init);
        assert((first.push(one_more) + rest).drop_last() =~= first.push(one_more) + init);
        assert((first + rest).last() == last);
        assert((first.push(one_more) + rest).last() == last);
        let a: ResourceCost = total_cost(cost, first + init);
        let b: ResourceCost = total_cost(cost, first.push(one_more) + init);
        assert(last.in_amounts());
        lemma_amounts(last.cpu_cores, last.cpu_cores);
        lemma_amounts(last.memory_gb, last.memory_gb);
        lemma_sum_monotone(a.cpu_cores, last.cpu_cores, b.cpu_cores, last.cpu_cores);
        lemma_sum_monotone(a.memory_gb, last.memory_gb, b.memory_gb, last.memory_gb);
        lemma_sum_of_amounts(b.cpu_cores, last.cpu_cores);
        lemma_sum_of_amounts(b.memory_gb, last.memory_gb);
    }
}

/// Where a load keeps its target, it does so too without one of its parts.
pub proof fn lemma_target_with_less(
    used: Single,
    own: Single,
    first: Seq<Single>,
    one_more: Single,
    rest: Seq<Single>,
    total: Single,
    limit: Single,
    less: Single,
    more: Single,
)
    requires
        used.is_amount(),
        one_more.is_amount(),
        total.is_amount(),
        !total.is_infinite(),
        !total.is_zero(),
        less.is_amount(),
        more.is_amount(),
        less.le(more),
        one_more.is_infinite() ==> more.is_infinite(),
        within_target(
            seq![used, own] + (first.push(one_more) + rest),
            total,
            limit,
            percent(used.sum(more), total),
        ),
    ensures
        within_target(
            seq![used, own] + (first + rest),
            total,
            limit,
            percent(used.sum(less), total),
        ),
{
    let with: Seq<Single> = seq![used, own] + (first.push(one_more) + rest);
    let without: Seq<Single> = seq![used, own] + (first + rest);
    let at: int = first.len() as int + 2;
    assert(with[at] == one_more);
    assert forall|i: int| 0 <= i < without.len() implies #[trigger] without[i] == if i < at {
        with[i]
    } else {
        with[i + 1]
    } by {}
    lemma_amounts(used, used);
    lemma_sum_monotone(used, less, used, more);
    lemma_percent_monotone(used.sum(less), used.sum(more), total);
    if comparable(with, total, limit) {
        assert(all_finite(without)) by {
            assert forall|i: int| 0 <= i < without.len() implies (#[trigger] without[i]).magnitude()
                < INFINITE by {
                let k: int = if i < at {
                    i
                } else {
                    i + 1
                };
                assert(with[k].magnitude() < INFINITE);
            }
        }
        lemma_sum_concat(seq![used, own], first.push(one_more) + rest);
        lemma_sum_concat(seq![used, own], first + rest);
        lemma_sum_concat(first.push(one_more), rest);
        lemma_sum_concat(first, rest);
        assert(first.push(one_more).drop_last() =~= first);
        let (x, y, p): (int, int, nat) = (sum_of(without), sum_of(with), pow2(149));
        assert(100 * x * p <= 100 * y * p) by (nonlinear_arith)
            requires
                x <= y,
        ;
    } else if comparable(without, total, limit) {
        if !one_more.is_infinite() {
            assert forall|i: int| 0 <= i < with.len() implies (#[trigger] with[i]).magnitude()
                < INFINITE by {
                if i < at {
                    assert(without[i] == with[i]);
                } else if i > at {
                    assert(without[i - 1] == with[i]);
                }
            }
        }
        lemma_sum_of_amounts(used, more);
        lemma_steps_increase(limit.magnitude(), INFINITE as nat);
    }
}

/// Whether a number is beyond every limit: infinite, or not a number.
pub open spec fn beyond(x: Single) -> bool {
    x.is_nan() || (x.is_infinite() && !x.negative())
}

/// What is beyond every limit stays so, whatever is added.
proof fn lemma_total_beyond(cost: ResourceCost, further: Seq<ResourceCost>, i: int)
    requires
        -1 <= i < further.len(),
    ensures
        beyond(
            if i < 0 {
                cost.cpu_cores
            } else {
                further[i].cpu_cores
            },
        ) ==> beyond(total_cost(cost, further).cpu_cores),
        beyond(
            if i < 0 {
                cost.memory_gb
            } else {
                further[i].memory_gb
            },
        ) ==> beyond(total_cost(cost, further).memory_gb),
    decreases further.len(),
{
    if i < further.len() - 1 {
        assert(i >= 0 ==> further.drop_last()[i] == further[i]);
        lemma_total_beyond(cost, further.drop_last(), i);
    }
}

/// A use of the cluster that is beyond every limit is a share that no finite limit allows.
proof fn lemma_beyond_is_refused(used: Single, load: Single, total: Single, limit: Single)
    requires
        beyond(used) || beyond(load),
        total.magnitude() < INFINITE,
        total.value() > 0,
        limit.magnitude() < INFINITE,
    ensures
        !percent(used.sum(load), total).le(limit),
{
    lemma_sign(total);
    assert(beyond(used.sum(load)));
    assert(beyond(used.sum(load).quotient(total)));
    assert(beyond(percent(used.sum(load), total)));
    lemma_steps_increase(limit.magnitude(), INFINITE as nat);
}

/// Whether no number is below every limit.
pub open spec fn none_below_all(parts: Seq<Single>) -> bool {
    forall|i: int|
        0 <= i < parts.len() ==> !((#[trigger] parts[i]).is_infinite() && parts[i].negative())
}

/// A load that keeps its target has only finite parts.
pub proof fn lemma_kept_targets_are_finite(
    s: SchedulerView,
    cost: ResourceCost,
)
    requires
        none_below_all(cpu_parts(s, cost)),
        none_below_all(memory_parts(s, cost)),
        s.cluster.total_cpu_cores.magnitude() < INFINITE,
        s.cluster.total_cpu_cores.value() > 0,
        s.cluster.total_memory_gb.magnitude() < INFINITE,
        s.cluster.total_memory_gb.value() > 0,
        s.request_limits.cpu_percent.magnitude() < INFINITE,
        s.request_limits.memory_percent.magnitude() < INFINITE,
    ensures
        cpu_fits(s, cost) ==> all_finite(cpu_parts(s, cost)),
        memory_fits(s, cost) ==> all_finite(memory_parts(s, cost)),
{
    let approved: Seq<ResourceCost> = approved_costs(s);
    let load: ResourceCost = total_cost(cost, approved);
    let (c, l) = (s.cluster, s.request_limits);
    if !all_finite(cpu_parts(s, cost)) {
        let parts: Seq<Single> = cpu_parts(s, cost);
        let i: int = choose|i: int|
            0 <= i < parts.len() && !((#[trigger] parts[i]).magnitude() < INFINITE);
        assert(beyond(parts[i]));
        if i > 0 {
            assert(parts[i] == if i == 1 {
                cost.cpu_cores
            } else {
                approved[i - 2].cpu_cores
            });
            lemma_total_beyond(cost, approved, i - 2);
        }
        lemma_beyond_is_refused(c.used_cpu_cores, load.cpu_cores, c.total_cpu_cores, l.cpu_percent);
    }
    if !all_finite(memory_parts(s, cost)) {
        let parts: Seq<Single> = memory_parts(s, cost);
        let i: int = choose|i: int|
            0 <= i < parts.len() && !((#[trigger] parts[i]).magnitude() < INFINITE);
        assert(beyond(parts[i]));
        if i > 0 {
            assert(parts[i] == if i == 1 {
                cost.memory_gb
            } else {
                approved[i - 2].memory_gb
            });
            lemma_total_beyond(cost, approved, i - 2);
        }
        lemma_beyond_is_refused(
            c.used_memory_gb,
            load.memory_gb,
            c.total_memory_gb,
            l.memory_percent,
        );
    }
}

/// Products of finite amounts keep their order.
proof fn lemma_products_monotone(a: Single, b: Single, c: Single, d: Single)
    requires
        a.is_finite_amount(),
        b.is_finite_amount(),
        c.is_finite_amount(),
        d.is_finite_amount(),
        a.le(b),
        c.le(d),
    ensures
        a.product(c).is_amount(),
        b.product(d).is_amount(),
        a.product(c).le(b.product(d)),
{
    lemma_amounts(a, b);
    lemma_amounts(c, d);
    lemma_pow2_pos(149);
    let (m, n): (nat, nat) = (steps(a.magnitude()), steps(b.magnitude()));
    let (f, g): (nat, nat) = (steps(c.magnitude()), steps(d.magnitude()));
    assert(m * f <= n * g) by (nonlinear_arith)
        requires
            m <= n,
            f <= g,
    ;
    lemma_product_of_amounts(a, c);
    lemma_product_of_amounts(b, d);
    lemma_round_monotone(m * f, n * g, pow2(149));
    lemma_amounts(a.product(c), b.product(d));
}

/// Nothing rounds to nothing.
pub proof fn lemma_round_zero(d: nat)
    requires
        d > 0,
    ensures
        round(0, d) == 0,
{
    reveal(round);
    lemma2_to64();
    assert(d * pow2(0) == d);
    lemma_fundamental_div_mod_converse(0, d as int, 0, 0);
}

/// A finite amount times one or less is finite.
proof fn lemma_part_is_finite(a: Single, rate: Single)
    requires
        a.is_finite_amount(),
        rate.is_amount(),
        rate.magnitude() <= ONE,
    ensures
        a.product(rate).is_finite_amount(),
{
    lemma_one();
    lemma_pow2_pos(149);
    lemma_product_of_amounts(a, rate);
    lemma_amounts(rate, Single { bits: ONE });
    let (n, f, p): (nat, nat, nat) = (
        steps(a.magnitude()),
        steps(rate.magnitude()),
        pow2(149),
    );
    assert(n * f <= n * p) by (nonlinear_arith)
        requires
            f <= p,
    ;
    lemma_round_monotone(n * f, n * p, p);
    lemma_round_same_ratio(n, 1, p);
    assert(1 * p == p);
    lemma_round_exact(a.magnitude());
}

/// Hours are a finite amount, and more seconds are not fewer hours.
proof fn lemma_hours(secs: u32, longer: u32)
    requires
        secs <= longer,
    ensures
        hours(secs).is_finite_amount(),
        hours(longer).is_finite_amount(),
        hours(secs).le(hours(longer)),
        !hours(secs).negative(),
        secs == 0 ==> hours(secs).is_zero(),
{
    let hour: Single = Single { bits: SECONDS_PER_HOUR };
    lemma_of_int_monotone(secs, longer);
    lemma_quotient_monotone(Single::of_int(secs as int), Single::of_int(longer as int), hour);
    lemma_hours_are_finite(secs);
    lemma_hours_are_finite(longer);
    lemma_round_bound(secs as nat * pow2(149), 1);
    lemma_quotient_of_amount(Single::of_int(secs as int), hour);
    if secs == 0 {
        lemma_round_zero(1);
        assert(0 * pow2(149) == 0);
        lemma_steps_increase(0, SECONDS_PER_HOUR as nat);
        lemma_round_zero(steps(SECONDS_PER_HOUR as nat));
    }
}

proof fn lemma_hours_are_finite(secs: u32)
    ensures
        hours(secs).is_finite_amount(),
{
    lemma_one();
    lemma_steps_increase(ONE as nat, SECONDS_PER_HOUR as nat);
    lemma_of_int_monotone(secs, secs);
    if secs > 0 {
        lemma_of_int_positive(secs);
    } else {
        lemma_round_zero(1);
        assert(0 * pow2(149) == 0);
    }
    let s: Single = Single::of_int(secs as int);
    let (n, p, t): (nat, nat, nat) = (
        steps(s.magnitude()),
        pow2(149),
        steps(SECONDS_PER_HOUR as nat),
    );
    lemma_pow2_pos(149);
    assert(n * p <= n * t) by (nonlinear_arith)
        requires
            p <= t,
    ;
    lemma_round_monotone(n * p, n * t, t);
    lemma_round_same_ratio(n, 1, t);
    assert(1 * t == t);
    lemma_round_exact(s.magnitude());
}

/// What is paid for one resource does not fall where more is used, or for longer.
proof fn lemma_rated_monotone(a: Single, b: Single, rate: Single, secs: u32, longer: u32)
    requires
        a.is_finite_amount(),
        b.is_finite_amount(),
        a.le(b),
        rate.is_amount(),
        rate.magnitude() <= ONE,
        secs <= longer,
    ensures
        a.product(rate).product(hours(secs)).is_amount(),
        b.product(rate).product(hours(longer)).is_amount(),
        a.product(rate).product(hours(secs)).le(b.product(rate).product(hours(longer))),
{
    lemma_hours(secs, longer);
    lemma_amounts(rate, rate);
    lemma_products_monotone(a, b, rate, rate);
    lemma_part_is_finite(a, rate);
    lemma_part_is_finite(b, rate);
    lemma_products_monotone(a.product(rate), b.product(rate), hours(secs), hours(longer));
}

/// A price does not fall where more is used, or for longer.
pub proof fn price_never_falls(cost: ResourceCost, dearer: ResourceCost, secs: u32, longer: u32)
    requires
        cost.in_finite_amounts(),
        dearer.in_finite_amounts(),
        cost.at_most(dearer),
        secs <= longer,
    ensures
        monetary_cost(cost, secs).is_amount(),
        monetary_cost(dearer, longer).is_amount(),
        monetary_cost(cost, secs).le(monetary_cost(dearer, longer)),
{
    let cpu_rate: Single = Single { bits: COST_PER_CPU_CORE_HOUR };
    let memory_rate: Single = Single { bits: COST_PER_MEMORY_GB_HOUR };
    lemma_rated_monotone(cost.cpu_cores, dearer.cpu_cores, cpu_rate, secs, longer);
    lemma_rated_monotone(cost.memory_gb, dearer.memory_gb, memory_rate, secs, longer);
    lemma_sum_monotone(
        cost.cpu_cores.product(cpu_rate).product(hours(secs)),
        cost.memory_gb.product(memory_rate).product(hours(secs)),
        dearer.cpu_cores.product(cpu_rate).product(hours(longer)),
        dearer.memory_gb.product(memory_rate).product(hours(longer)),
    );
}

/// What is used for no time, and nothing for any time, is for free.
pub proof fn nothing_costs_nothing(cost: ResourceCost, secs: u32)
    requires
        cost.in_finite_amounts(),
        secs == 0 || (cost.cpu_cores.is_zero() && cost.memory_gb.is_zero()),
    ensures
        monetary_cost(cost, secs).is_zero(),
        monetary_cost(cost, secs).value() == 0,
        !cost.cpu_cores.negative() || !cost.memory_gb.negative() ==> monetary_cost(cost, secs) == (
        Single { bits: 0 }),
{
    let cpu_rate: Single = Single { bits: COST_PER_CPU_CORE_HOUR };
    let memory_rate: Single = Single { bits: COST_PER_MEMORY_GB_HOUR };
    lemma_hours(secs, secs);
    lemma_pow2_pos(149);
    lemma_round_zero(pow2(149));
    lemma_product_of_amounts(cost.cpu_cores, cpu_rate);
    lemma_product_of_amounts(cost.memory_gb, memory_rate);
    lemma_part_is_finite(cost.cpu_cores, cpu_rate);
    lemma_part_is_finite(cost.memory_gb, memory_rate);
    lemma_product_with_zero(cost.cpu_cores, cpu_rate);
    lemma_product_with_zero(cost.memory_gb, memory_rate);
    lemma_product_with_zero(cost.cpu_cores.product(cpu_rate), hours(secs));
    lemma_product_with_zero(cost.memory_gb.product(memory_rate), hours(secs));
}

/// A finite amount times nothing is nothing.
proof fn lemma_product_with_zero(a: Single, b: Single)
    requires
        a.is_finite_amount(),
        b.is_finite_amount(),
    ensures
        a.is_zero() || b.is_zero() ==> a.product(b) == signed(a.negative() != b.negative(), 0),
{
    lemma_product_of_amounts(a, b);
    lemma_pow2_pos(149);
    lemma_round_zero(pow2(149));
    let (m, n): (nat, nat) = (steps(a.magnitude()), steps(b.magnitude()));
    assert(m == 0 || n == 0 ==> m * n == 0) by (nonlinear_arith);
}

/// A price depends on what is used and for how long alone, and not on a price that was worked
/// out before.
pub proof fn price_ignores_earlier_prices(cost: ResourceCost, earlier: Option<Single>, secs: u32)
    ensures
        monetary_cost(ResourceCost { monetary_cost_eur: earlier, ..cost }, secs) == monetary_cost(
            cost,
            secs,
        ),
        priced(priced(cost, secs), secs) == priced(cost, secs),
{
}

/// Whole numbers keep their order.
proof fn lemma_of_int_monotone(m: u32, n: u32)
    requires
        m <= n,
    ensures
        Single::of_int(m as int).is_amount(),
        Single::of_int(n as int).is_amount(),
        Single::of_int(m as int).le(Single::of_int(n as int)),
{
    let p: nat = pow2(149);
    assert(m * p <= n * p) by (nonlinear_arith)
        requires
            m <= n,
    ;
    lemma_round_bound(m as nat * p, 1);
    lemma_round_bound(n as nat * p, 1);
    lemma_round_monotone(m as nat * p, n as nat * p, 1);
    lemma_amounts(Single::of_int(m as int), Single::of_int(n as int));
}

/// Without history, more nodes of the same chart are not expected to cost less.
pub proof fn more_nodes_cost_no_less(params: SimulationParamsView, more: SimulationParamsView)
    requires
        params.chart == more.chart,
        params.node_count <= more.node_count,
    ensures
        default_cost(params).at_most(default_cost(more)),
        default_cost(params).in_amounts(),
{
    lemma_of_int_monotone(params.node_count, more.node_count);
    let m: Single = Single::of_int(params.node_count as int);
    let n: Single = Single::of_int(more.node_count as int);
    lemma_product_monotone(m, n, Single { bits: crate::pricing::WAKU_CPU_PER_NODE });
    lemma_product_monotone(m, n, Single { bits: crate::pricing::WAKU_MEMORY_PER_NODE });
    lemma_product_monotone(m, n, Single { bits: crate::pricing::OTHER_CPU_PER_NODE });
    lemma_product_monotone(m, n, Single { bits: crate::pricing::OTHER_MEMORY_PER_NODE });
}

/// The value of one.
proof fn lemma_one()
    ensures
        steps(ONE as nat) == pow2(149),
        round(pow2(149), 1) == ONE,
{
    lemma2_to64();
    lemma_pow2_adds(23, 126);
    lemma_round_exact(ONE as nat);
}

/// An amount over itself is one.
proof fn lemma_quotient_by_itself(a: Single)
    requires
        a.is_amount(),
        !a.is_infinite(),
        !a.is_zero(),
    ensures
        a.quotient(a) == (Single { bits: ONE }),
{
    lemma_one();
    lemma_steps_increase(0, a.magnitude());
    let n: nat = steps(a.magnitude());
    lemma_round_same_ratio(pow2(149), 1, n);
    assert(n * pow2(149) == pow2(149) * n) by (nonlinear_arith);
    assert(1 * n == n);
}

/// A number times one is the number.
proof fn lemma_product_with_one(a: Single)
    requires
        !a.is_nan(),
    ensures
        a.product(Single { bits: ONE }) == a,
{
    lemma_one();
    lemma_pow2_pos(149);
    let n: nat = steps(a.magnitude());
    lemma_round_same_ratio(n, 1, pow2(149));
    assert(1 * pow2(149) == pow2(149));
    lemma_round_exact(a.magnitude());
}

/// A whole number that is not zero is an amount that is not zero.
proof fn lemma_of_int_positive(n: u32)
    requires
        n > 0,
    ensures
        Single::of_int(n as int).is_amount(),
        !Single::of_int(n as int).is_zero(),
        !Single::of_int(n as int).is_infinite(),
{
    lemma2_to64();
    lemma_one();
    let p: nat = pow2(149);
    lemma_pow2_pos(149);
    assert(n * p >= 1 * p) by (nonlinear_arith)
        requires
            n >= 1,
    ;
    lemma_round_monotone(p, n as nat * p, 1);
    let top: u32 = 0x4f80_0000;
    lemma_pow2_adds(23, 158);
    lemma_pow2_adds(32, 149);
    assert(steps(top as nat) == 0x1_0000_0000 * p);
    assert(n * p <= 0x1_0000_0000 * p) by (nonlinear_arith)
        requires
            n <= 0x1_0000_0000,
    ;
    lemma_round_exact(top as nat);
    lemma_round_monotone(n as nat * p, 0x1_0000_0000 * p, 1);
}

/// A cost that was observed at the requested size is kept by scaling it to that size.
pub proof fn scaling_to_the_same_size_keeps_costs(cpu: Single, memory: Single, nodes: u32)
    requires
        nodes > 0,
        !cpu.is_nan(),
        !memory.is_nan(),
    ensures
        scaled(cpu, memory, nodes as i64, nodes) == (ResourceCost {
            cpu_cores: cpu,
            memory_gb: memory,
            monetary_cost_eur: None,
        }),
{
    lemma_of_int_positive(nodes);
    lemma_quotient_by_itself(Single::of_int(nodes as int));
    lemma_product_with_one(cpu);
    lemma_product_with_one(memory);
}

/// The name of a release gives the node count where that is below one thousand, and
/// thousands from there on.
pub proof fn sizes_from_one_thousand_are_in_thousands(node_count: u32)
    ensures
        node_count < 1000 ==> size_label(node_count) == decimal(node_count as nat),
        node_count >= 1000 ==> size_label(node_count) == decimal(
            Single::of_int(node_count as int).quotient(Single { bits: THOUSAND }).whole(),
        ) + "k"@,
{
    lemma2_to64();
    lemma_one();
    let thousand: Single = Single { bits: THOUSAND };
    let one: Single = Single { bits: ONE };
    let n: Single = Single::of_int(node_count as int);
    let p: nat = pow2(149);
    lemma_pow2_adds(14, 135);
    assert(THOUSAND as nat / BINADE as nat == 136);
    assert(THOUSAND as nat % BINADE as nat == 0x7a_0000);
    assert(p == 16384 * pow2(135));
    assert(steps(THOUSAND as nat) == (0x80_0000 + 0x7a_0000) * pow2(135));
    assert(0xfa_0000 * pow2(135) == 1000 * p);
    lemma_round_exact(THOUSAND as nat);
    assert(Single::of_int(1000) == thousand);
    if node_count >= 1000 {
        lemma_of_int_monotone(1000, node_count);
        lemma_quotient_by_itself(thousand);
        lemma_quotient_monotone(thousand, n, thousand);
    } else {
        let near: Single = Single::of_int(999);
        let size: nat = 135 * BINADE as nat + 0xf9_c000;
        assert(steps(size) == 0xf9_c000 * pow2(135));
        lemma_round_exact(size);
        assert(near.magnitude() == size);
        lemma_of_int_monotone(node_count, 999);
        lemma_quotient_monotone(n, near, thousand);
        let below: nat = (ONE - 1) as nat;
        lemma_pow2_adds(24, 125);
        assert(steps(below) == 0xff_ffff * pow2(125));
        lemma_round_exact(below);
        lemma_pow2_pos(149);
        lemma_pow2_pos(125);
        assert((999 * p) * p <= (0xff_ffff * pow2(125) * 1000) * p) by (nonlinear_arith)
            requires
                999 * p <= 0xff_ffff * pow2(125) * 1000,
        ;
        lemma_round_monotone(
            999 * p * p,
            0xff_ffff * pow2(125) * 1000 * p,
            1000 * p,
        );
        assert(1 * (1000 * p) == 1000 * p);
        assert(0xff_ffff * pow2(125) * 1000 * p == (0xff_ffff * pow2(125)) * (1000 * p))
            by (nonlinear_arith);
        lemma_round_same_ratio(0xff_ffff * pow2(125), 1, 1000 * p);
        assert(near.quotient(thousand).magnitude() <= below);
        lemma_amounts(n.quotient(thousand), near.quotient(thousand));
        lemma_amounts(one, n.quotient(thousand));
    }
}

} // verus!
