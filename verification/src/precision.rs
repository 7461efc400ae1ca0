//! What prices, predictions, estimates and shares are, in exact terms and up to their rounding.

use crate::model::{ResourceCost, SimulationParamsView, Timestamp};
use crate::nearness::{
    amount, gap, lemma_amount, lemma_centred, lemma_constant, lemma_exact_constant, lemma_gap,
    lemma_half_even_error, lemma_near_cancel, lemma_near_constant, lemma_near_expand,
    lemma_near_int, lemma_near_nothing, lemma_near_product, lemma_near_quotient, lemma_near_sum,
    lemma_ordinary, lemma_part, lemma_shifted, lemma_sized, lemma_unit, near, ordinary, sized,
    small_integers_are_exact, unit, whole_parts_are_cut,
};
use crate::order::{
    lemma_product_of_amounts, lemma_quotient_monotone, lemma_quotient_of_amount, lemma_round_zero,
    lemma_sum_of_amounts, nothing_costs_nothing, sizes_from_one_thousand_are_in_thousands,
};
use crate::pricing::{
    believed_ratio, checked_cost, default_cost, hours, lookup_usable, monetary_cost, plausible,
    predicted_cost, HistoryLookup, HistoryRow, COST_PER_CPU_CORE_HOUR, COST_PER_MEMORY_GB_HOUR,
    OTHER_CPU_PER_NODE, OTHER_MEMORY_PER_NODE, SECONDS_PER_HOUR, WAKU_CPU_PER_NODE,
    WAKU_MEMORY_PER_NODE,
};
use crate::queue::{after_admission, jittered, mock_estimate, size_label};
use crate::rounding::{half_even, lemma_round_same_ratio, round, INFINITE};
use crate::single::{steps, Single};
use crate::state::{initial, SchedulerView};
use crate::text::{decimal, one_decimal};
use vstd::arithmetic::power2::{
    lemma2_to64, lemma2_to64_rest, lemma_pow2_adds, lemma_pow2_pos, pow2,
};
use vstd::prelude::*;

verus! {

/// The error of a time in hours.
proof fn lemma_near_hours(secs: u32)
    requires
        secs > 0,
    ensures
        sized(hours(secs), 16384, 0x2000_0000_0000),
        near(amount(hours(secs)), secs * unit(), 3600, 6),
{
    lemma2_to64();
    lemma2_to64_rest();
    lemma_unit();
    let u: int = unit() as int;
    let h: Single = Single { bits: SECONDS_PER_HOUR };
    lemma_near_constant(SECONDS_PER_HOUR, 0xe1_0000, 137, 0x1000, 3600, 1);
    lemma_near_int(secs as int);
    let n: int = secs * u;
    assert(n >= 0) by (nonlinear_arith)
        requires
            n == secs * u,
            u > 0,
    ;
    lemma_near_quotient(
        Single::of_int(secs as int),
        n,
        1,
        2,
        2,
        2 * secs,
        h,
        3600 * u,
        1,
        1,
        1000,
        4096,
    );
    let x: Single = hours(secs);
    assert(u * n * 1 == n * u && 1 * (3600 * u) == 3600 * u) by (nonlinear_arith);
    lemma_near_cancel(amount(x), n, 3600, u, 6);
    let v: int = amount(x);
    assert(v <= 0x2000_0000_0000 * u) by (nonlinear_arith)
        requires
            v <= 2 * ((2 * secs) * 1000) * u,
            secs <= 0xffff_ffff,
            u > 0,
    ;
}

/// What part of a price comes from one resource.
proof fn lemma_near_rated(x: Single, rate: Single, den: int, secs: u32)
    requires
        ordinary(x),
        sized(rate, 1000, 4096),
        near(amount(rate), unit() as int, den, 1),
        0 < den <= 1000,
        secs > 0,
    ensures
        ({
            let part = x.product(rate).product(hours(secs));
            &&& part.is_finite_amount()
            &&& near(amount(part), amount(x) * secs, den * 3600, 13)
            &&& !x.is_zero() ==> amount(part) >= 0x80_0000
            &&& amount(part) < pow2(270)
        }),
{
    lemma_unit();
    let u: int = unit() as int;
    let v: int = amount(x);
    lemma_near_hours(secs);
    let h: Single = hours(secs);
    let r: Single = x.product(rate);
    let part: Single = r.product(h);
    lemma_sized(rate, 1000, 4096);
    lemma_sized(h, 16384, 0x2000_0000_0000);
    if x.is_zero() {
        lemma_product_of_amounts(x, rate);
        lemma_round_zero(pow2(149));
        assert(steps(0) == 0);
        assert(0 * amount(rate) == 0);
        lemma_product_of_amounts(r, h);
        assert(0 * amount(h) == 0);
        assert(amount(part) == 0);
        assert(v * secs == 0) by (nonlinear_arith)
            requires
                v == 0,
        ;
        lemma_near_nothing(v * secs, den * 3600, 13);
        lemma_pow2_pos(270);
    } else {
        let big: int = 0x100_0000_0000;
        lemma_near_product(x, v, 1, 0, big, big, rate, u, den, 1, 1000, 4096);
        assert(1 * den * u == den * u);
        lemma_near_cancel(amount(r), v, den, u, 4);
        let n: int = secs * u;
        assert(n >= 0) by (nonlinear_arith)
            requires
                n == secs * u,
                u > 0,
        ;
        lemma_near_product(
            r,
            v,
            den,
            4,
            2 * (big * 1000),
            2 * (big * 4096),
            h,
            n,
            3600,
            6,
            16384,
            0x2000_0000_0000,
        );
        assert(v * n == (v * secs) * u && den * 3600 * u == (den * 3600) * u) by (nonlinear_arith)
            requires
                n == secs * u,
        ;
        lemma_near_cancel(amount(part), v * secs, den * 3600, u, 13);
        lemma_pow2_adds(149, 121);
        lemma_pow2_adds(64, 57);
        lemma2_to64();
        lemma2_to64_rest();
        let w: int = amount(part);
        assert(w >= 0x80_0000) by (nonlinear_arith)
            requires
                w * (2 * (2 * (0x100_0000_0000 * 1000) * 16384)) >= u,
                u >= 0x1_0000_0000_0000_0000int * 0x1_0000_0000_0000_0000int * 0x20_0000,
        ;
        assert(w < u * 0x200_0000_0000_0000_0000_0000_0000_0000) by (nonlinear_arith)
            requires
                w <= 2 * (2 * (0x100_0000_0000 * 4096) * 0x2000_0000_0000) * u,
                u > 0,
        ;
        assert(pow2(121) == 0x200_0000_0000_0000_0000_0000_0000_0000);
        assert(part.is_finite_amount());
    }
}

/// How near a price is to what it should be.
proof fn lemma_price_near(cost: ResourceCost, secs: u32)
    requires
        ordinary(cost.cpu_cores),
        ordinary(cost.memory_gb),
        secs > 0,
        !cost.cpu_cores.is_zero() || !cost.memory_gb.is_zero(),
    ensures
        monetary_cost(cost, secs).is_finite_amount(),
        near(
            amount(monetary_cost(cost, secs)),
            (2 * amount(cost.cpu_cores) + amount(cost.memory_gb)) * secs,
            720000,
            15,
        ),
{
    lemma2_to64();
    lemma2_to64_rest();
    let (c, g): (Single, Single) = (cost.cpu_cores, cost.memory_gb);
    let (v, w): (int, int) = (amount(c), amount(g));
    let (r, m): (Single, Single) = (
        Single { bits: COST_PER_CPU_CORE_HOUR },
        Single { bits: COST_PER_MEMORY_GB_HOUR },
    );
    lemma_near_constant(COST_PER_CPU_CORE_HOUR, 0xa3_d70a, 119, 0x4000_0000, 1, 100);
    lemma_near_constant(COST_PER_MEMORY_GB_HOUR, 0xa3_d70a, 118, 0x8000_0000, 1, 200);
    lemma_near_rated(c, r, 100, secs);
    lemma_near_rated(g, m, 200, secs);
    let (p, q): (Single, Single) = (
        c.product(r).product(hours(secs)),
        g.product(m).product(hours(secs)),
    );
    lemma_near_expand(amount(p), v * secs, 360000, 2, 13);
    lemma_pow2_adds(270, 6);
    assert(v * secs >= 0 && w * secs >= 0) by (nonlinear_arith)
        requires
            v >= 0,
            w >= 0,
    ;
    lemma_near_sum(p, (v * secs) * 2, q, w * secs, 720000, 13);
    assert((v * secs) * 2 + w * secs == (2 * v + w) * secs) by (nonlinear_arith);
}

/// The price is proportional to the use and to the time: up to one part in `2^20`, it is one
/// cent for a core and half a cent for a gigabyte for each 3600 seconds, for every duration.
/// What is used for some time has a price above nothing.
pub proof fn price_is_proportional(cost: ResourceCost, secs: u32)
    requires
        ordinary(cost.cpu_cores),
        ordinary(cost.memory_gb),
    ensures
        ({
            let price = monetary_cost(cost, secs);
            let used = 2 * cost.cpu_cores.value() + cost.memory_gb.value();
            &&& 0x10_0000 * gap(price.value() * 720000, used * secs) <= used * secs
            &&& used > 0 && secs > 0 ==> price.value() > 0
        }),
{
    let price: Single = monetary_cost(cost, secs);
    let (c, g): (Single, Single) = (cost.cpu_cores, cost.memory_gb);
    let (v, w): (int, int) = (amount(c), amount(g));
    assert(c.value() == v && g.value() == w);
    if secs == 0 || (v == 0 && w == 0) {
        lemma_amount(c);
        lemma_amount(g);
        nothing_costs_nothing(cost, secs);
        let used: int = 2 * v + w;
        assert(used * secs == 0) by (nonlinear_arith)
            requires
                used == 0 || secs == 0,
        ;
    } else {
        lemma_amount(c);
        lemma_amount(g);
        lemma_price_near(cost, secs);
        lemma_amount(price);
        let used: int = 2 * v + w;
        assert(used * secs > 0) by (nonlinear_arith)
            requires
                used > 0,
                secs > 0,
        ;
        lemma_gap(price.value(), used * secs, 720000, 15);
    }
}

/// Whether an amount is another one times `to / from`: as it is worked out, and, for what is of
/// an ordinary size, up to one part in `2^20`.
pub open spec fn in_proportion(result: Single, amount: Single, from: int, to: int) -> bool {
    &&& result == amount.product(Single::of_int(to).quotient(Single::of_int(from)))
    &&& ordinary(amount) && 1 <= from <= u32::MAX && 1 <= to <= u32::MAX ==> 0x10_0000 * gap(
        result.value() * from,
        amount.value() * to,
    ) <= amount.value() * to
}

/// What is worked out as a multiple is one.
proof fn lemma_in_proportion(x: Single, from: int, to: int)
    ensures
        in_proportion(
            x.product(Single::of_int(to).quotient(Single::of_int(from))),
            x,
            from,
            to,
        ),
{
    let f: Single = Single::of_int(to).quotient(Single::of_int(from));
    let r: Single = x.product(f);
    if ordinary(x) && 1 <= from <= u32::MAX && 1 <= to <= u32::MAX {
        lemma_unit();
        let u: int = unit() as int;
        let v: int = amount(x);
        lemma_amount(x);
        lemma_near_int(from);
        lemma_near_int(to);
        assert(to * u >= 0 && from * u > 0) by (nonlinear_arith)
            requires
                to >= 1,
                from >= 1,
                u > 0,
        ;
        lemma_near_quotient(
            Single::of_int(to),
            to * u,
            1,
            2,
            2,
            2 * to,
            Single::of_int(from),
            from * u,
            1,
            2,
            2,
            2 * from,
        );
        assert(u * (to * u) * 1 == (to * u) * u && 1 * (from * u) == from * u) by (nonlinear_arith);
        lemma_near_cancel(amount(f), to * u, from, u, 7);
        lemma_sized(f, 2 * (2 * (2 * from)), 2 * (2 * to * 2));
        if x.is_zero() {
            lemma_product_of_amounts(x, f);
            lemma_round_zero(pow2(149));
            assert(0 * amount(f) == 0);
            lemma_amount(r);
            assert(v * to == 0) by (nonlinear_arith)
                requires
                    v == 0,
            ;
            assert(0 * from == 0);
        } else {
            let big: int = 0x100_0000_0000;
            lemma_near_product(
                x,
                v,
                1,
                0,
                big,
                big,
                f,
                to * u,
                from,
                7,
                2 * (2 * (2 * from)),
                2 * (2 * to * 2),
            );
            assert(v * (to * u) == (v * to) * u && 1 * from * u == from * u) by (nonlinear_arith);
            lemma_near_cancel(amount(r), v * to, from, u, 10);
            assert(v * to >= 0) by (nonlinear_arith)
                requires
                    v >= 0,
                    to >= 1,
            ;
            lemma_gap(amount(r), v * to, from, 10);
            lemma_amount(r);
        }
    }
}

/// Without an entry for the requested node count, the prediction is the cost at the closer
/// neighbour, in proportion to the nodes; at the lower one where both are equally close. Only
/// that neighbour has to be complete.
pub proof fn closer_neighbour_is_scaled(
    params: SimulationParamsView,
    row: HistoryRow,
    low: i64,
    high: i64,
)
    requires
        row.em_cpu is None || row.em_mem is None,
        row.cl_nodes == Some(low),
        row.ch_nodes == Some(high),
    ensures
        ({
            let lookup: HistoryLookup = Ok(Some(row));
            let r = predicted_cost(params, lookup);
            let n = params.node_count as int;
            let lower_is_closer = gap(n, low as int) <= gap(n, high as int);
            &&& low < n < high && n - low <= high - n ==> lower_is_closer
            &&& low < n < high && high - n < n - low ==> !lower_is_closer
            &&& r.monetary_cost_eur is None
            &&& lower_is_closer ==> {
                &&& lookup_usable(lookup, params.node_count) <==> row.cl_cpu is Some
                    && row.cl_mem is Some
                &&& in_proportion(r.cpu_cores, row.cl_cpu->0, low as int, n)
                &&& in_proportion(r.memory_gb, row.cl_mem->0, low as int, n)
            }
            &&& !lower_is_closer ==> {
                &&& lookup_usable(lookup, params.node_count) <==> row.ch_cpu is Some
                    && row.ch_mem is Some
                &&& in_proportion(r.cpu_cores, row.ch_cpu->0, high as int, n)
                &&& in_proportion(r.memory_gb, row.ch_mem->0, high as int, n)
            }
        }),
{
    let n: int = params.node_count as int;
    lemma_in_proportion(row.cl_cpu->0, low as int, n);
    lemma_in_proportion(row.cl_mem->0, low as int, n);
    lemma_in_proportion(row.ch_cpu->0, high as int, n);
    lemma_in_proportion(row.ch_mem->0, high as int, n);
}

/// Where there is only one neighbour, the prediction is its cost, in proportion to the nodes.
pub proof fn only_neighbour_is_scaled(params: SimulationParamsView, row: HistoryRow, nodes: i64)
    requires
        row.em_cpu is None || row.em_mem is None,
        row.cl_nodes == Some(nodes) && row.ch_nodes is None || row.ch_nodes == Some(nodes)
            && row.cl_nodes is None,
    ensures
        ({
            let lookup: HistoryLookup = Ok(Some(row));
            let r = predicted_cost(params, lookup);
            let n = params.node_count as int;
            let (cpu, memory) = if row.cl_nodes is Some {
                (row.cl_cpu, row.cl_mem)
            } else {
                (row.ch_cpu, row.ch_mem)
            };
            &&& lookup_usable(lookup, params.node_count) <==> cpu is Some && memory is Some
            &&& in_proportion(r.cpu_cores, cpu->0, nodes as int, n)
            &&& in_proportion(r.memory_gb, memory->0, nodes as int, n)
            &&& r.monetary_cost_eur is None
        }),
{
    let n: int = params.node_count as int;
    lemma_in_proportion(row.cl_cpu->0, nodes as int, n);
    lemma_in_proportion(row.cl_mem->0, nodes as int, n);
    lemma_in_proportion(row.ch_cpu->0, nodes as int, n);
    lemma_in_proportion(row.ch_mem->0, nodes as int, n);
}

/// The error of so much for each node.
proof fn lemma_near_nodes(n: u32, rate: Single, num: int, den: int)
    requires
        sized(rate, 1000, 4096),
        near(amount(rate), num * unit(), den, 1),
        num > 0,
        den > 0,
    ensures
        0x10_0000 * gap(
            Single::of_int(n as int).product(rate).value() * den,
            n * num * unit(),
        ) <= n * num * unit(),
{
    lemma_unit();
    let u: int = unit() as int;
    let nodes: Single = Single::of_int(n as int);
    let r: Single = nodes.product(rate);
    lemma_sized(rate, 1000, 4096);
    if n == 0 {
        lemma_round_zero(1);
        assert(0 * pow2(149) == 0);
        lemma_product_of_amounts(nodes, rate);
        lemma_round_zero(pow2(149));
        assert(0 * amount(rate) == 0);
        lemma_amount(r);
        assert(0 * den == 0);
        assert(n * num * u == 0) by (nonlinear_arith)
            requires
                n == 0,
        ;
    } else {
        lemma_near_int(n as int);
        assert(n * u >= 0 && num * u >= 0 && n * num * u >= 0) by (nonlinear_arith)
            requires
                num > 0,
                u > 0,
        ;
        lemma_near_product(nodes, n * u, 1, 2, 2, 2 * n, rate, num * u, den, 1, 1000, 4096);
        assert((n * u) * (num * u) == (n * num * u) * u && 1 * den * u == den * u)
            by (nonlinear_arith);
        lemma_near_cancel(amount(r), n * num * u, den, u, 6);
        lemma_gap(amount(r), n * num * u, den, 6);
        lemma_amount(r);
    }
}

/// Without history, a node of the chart `waku` is expected to take a tenth of a core and a
/// twentieth of a gigabyte, and one of any other chart 0.08 cores and 0.04 gigabytes, up to one
/// part in `2^20`.
pub proof fn default_is_so_much_for_each_node(params: SimulationParamsView)
    ensures
        ({
            let r = default_cost(params);
            let (cpu, memory) = (r.cpu_cores.value(), r.memory_gb.value());
            let nodes = params.node_count * unit();
            &&& r.monetary_cost_eur is None
            &&& params.chart == "waku"@ ==> {
                &&& 0x10_0000 * gap(cpu * 10, nodes) <= nodes
                &&& 0x10_0000 * gap(memory * 20, nodes) <= nodes
            }
            &&& params.chart != "waku"@ ==> {
                &&& 0x10_0000 * gap(cpu * 25, 2 * nodes) <= 2 * nodes
                &&& 0x10_0000 * gap(memory * 25, nodes) <= nodes
            }
        }),
{
    lemma2_to64();
    lemma2_to64_rest();
    let n: u32 = params.node_count;
    let u: int = unit() as int;
    lemma_near_constant(WAKU_CPU_PER_NODE, 0xcc_cccd, 122, 0x800_0000, 1, 10);
    lemma_near_constant(WAKU_MEMORY_PER_NODE, 0xcc_cccd, 121, 0x1000_0000, 1, 20);
    lemma_near_constant(OTHER_CPU_PER_NODE, 0xa3_d70a, 122, 0x800_0000, 2, 25);
    lemma_near_constant(OTHER_MEMORY_PER_NODE, 0xa3_d70a, 121, 0x1000_0000, 1, 25);
    lemma_near_nodes(n, Single { bits: WAKU_CPU_PER_NODE }, 1, 10);
    lemma_near_nodes(n, Single { bits: WAKU_MEMORY_PER_NODE }, 1, 20);
    lemma_near_nodes(n, Single { bits: OTHER_CPU_PER_NODE }, 2, 25);
    lemma_near_nodes(n, Single { bits: OTHER_MEMORY_PER_NODE }, 1, 25);
    assert(n * 1 * u == n * u && n * 2 * u == 2 * (n * u)) by (nonlinear_arith);
}

/// The share of a total that two amounts are together, in percent.
pub open spec fn share(used: Single, more: Single, total: Single) -> Single {
    used.sum(more).quotient(total).product(Single { bits: 0x42c8_0000 })
}

/// The error of a share.
proof fn lemma_near_share(used: Single, more: Single, total: Single)
    requires
        ordinary(used),
        ordinary(more),
        ordinary(total),
        !total.is_zero(),
    ensures
        share(used, more, total).is_finite_amount(),
        near(
            amount(share(used, more, total)),
            100 * (amount(used) + amount(more)) * unit(),
            amount(total),
            9,
        ),
        amount(total) > 0,
{
    lemma_unit();
    lemma2_to64();
    let u: int = unit() as int;
    let big: int = 0x100_0000_0000;
    let (v, w, t): (int, int, int) = (amount(used), amount(more), amount(total));
    let hundred: Single = Single { bits: 0x42c8_0000 };
    let load: Single = used.sum(more);
    let ratio: Single = load.quotient(total);
    lemma_near_constant(0x42c8_0000, 0xc8_0000, 132, 0x2_0000, 100, 1);
    lemma_sized(hundred, 1000, 4096);
    lemma_sized(total, big, big);
    lemma_amount(used);
    lemma_amount(more);
    if v + w == 0 {
        lemma_sum_of_amounts(used, more);
        lemma_round_zero(1);
        lemma_quotient_of_amount(load, total);
        lemma_round_zero(t as nat);
        assert(0 * pow2(149) == 0);
        lemma_product_of_amounts(ratio, hundred);
        lemma_round_zero(pow2(149));
        assert(0 * amount(hundred) == 0);
        assert(100 * (v + w) * u == 0) by (nonlinear_arith)
            requires
                v + w == 0,
        ;
        lemma_near_nothing(100 * (v + w) * u, t, 9);
    } else {
        assert(v + w >= 0x80_0000 && v + w <= (2 * big) * u && (v + w) * big >= u) by {
            if v > 0 {
                lemma_ordinary(used);
            }
            if w > 0 {
                lemma_ordinary(more);
            }
        }
        lemma_near_sum(used, v, more, w, 1, 0);
        let z: int = amount(load);
        assert(z * (2 * big) >= u && z <= (4 * big) * u);
        lemma_near_quotient(load, v + w, 1, 2, 2 * big, 4 * big, total, t, 1, 0, big, big);
        let n: int = u * (v + w) * 1;
        assert(n >= 0) by (nonlinear_arith)
            requires
                n == u * (v + w) * 1,
                u > 0,
                v + w >= 0,
        ;
        assert(1 * t == t);
        lemma_near_product(
            ratio,
            n,
            t,
            5,
            2 * (2 * big * big),
            2 * (4 * big * big),
            hundred,
            100 * u,
            1,
            1,
            1000,
            4096,
        );
        let m: int = 100 * (v + w) * u;
        assert(n * (100 * u) == m * u && t * 1 * u == t * u) by (nonlinear_arith)
            requires
                n == u * (v + w) * 1,
                m == 100 * (v + w) * u,
        ;
        lemma_near_cancel(amount(share(used, more, total)), m, t, u, 9);
    }
}

/// Whether a load is at most so many percent of a total, even where the load is counted one part
/// in `2^20` higher.
pub open spec fn well_within(load: int, total: Single, limit: Single) -> bool {
    0x10_0001 * (100 * load * unit()) <= 0x10_0000 * (limit.value() * total.value())
}

/// Whether a load is at most so many percent of a total, where the load is counted one part in
/// `2^20` lower.
pub open spec fn nearly_within(load: int, total: Single, limit: Single) -> bool {
    0x10_0000 * (100 * load * unit()) <= 0x10_0001 * (limit.value() * total.value())
}

/// A rounded share decides as the exact one does, but for loads that are next to the limit.
proof fn lemma_share_decides(used: Single, more: Single, total: Single, limit: Single)
    requires
        ordinary(used),
        ordinary(more),
        ordinary(total),
        !total.is_zero(),
        limit.is_finite_amount(),
    ensures
        share(used, more, total).le(limit) ==> nearly_within(
            used.value() + more.value(),
            total,
            limit,
        ),
        well_within(used.value() + more.value(), total, limit) ==> share(used, more, total).le(
            limit,
        ),
{
    lemma_near_share(used, more, total);
    lemma_amount(used);
    lemma_amount(more);
    lemma_amount(total);
    lemma_amount(limit);
    let sh: Single = share(used, more, total);
    lemma_amount(sh);
    let (v, b, t): (int, int, int) = (amount(sh), amount(limit), amount(total));
    let n: int = 100 * (amount(used) + amount(more)) * unit();
    lemma_unit();
    assert(n >= 0) by (nonlinear_arith)
        requires
            n == 100 * (amount(used) + amount(more)) * unit(),
            amount(used) + amount(more) >= 0,
    ;
    let (vt, bt): (int, int) = (v * t, b * t);
    if v <= b {
        assert(vt <= bt) by (nonlinear_arith)
            requires
                vt == v * t,
                bt == b * t,
                v <= b,
                t > 0,
        ;
        assert(0x10_0000 * n <= 0x10_0001 * bt);
    } else {
        assert(vt >= bt + t) by (nonlinear_arith)
            requires
                vt == v * t,
                bt == b * t,
                v >= b + 1,
                t > 0,
        ;
        assert(0x10_0001 * n > 0x10_0000 * bt);
    }
}

/// A simulation leaves the queue to run only where both what is used of the cores with what it is
/// predicted to use of them, and what is used of the memory with what it is predicted to use of
/// it, are within the limits on the shares of all cores and of all memory; and where both are,
/// it is started. Only a load that is within one part in `2^20` of a limit may be decided
/// otherwise, because shares are rounded.
pub proof fn queue_keeps_both_limits(s: SchedulerView, id: u128, now: Timestamp)
    requires
        s.queued.len() > 0,
        ordinary(s.cluster.used_cpu_cores),
        ordinary(s.cluster.used_memory_gb),
        ordinary(s.cluster.total_cpu_cores),
        ordinary(s.cluster.total_memory_gb),
        !s.cluster.total_cpu_cores.is_zero(),
        !s.cluster.total_memory_gb.is_zero(),
        ordinary(s.queued[0].predicted_cost.cpu_cores),
        ordinary(s.queued[0].predicted_cost.memory_gb),
        s.queue_limits.cpu_percent.is_finite_amount(),
        s.queue_limits.memory_percent.is_finite_amount(),
    ensures
        ({
            let after = after_admission(s, id, now);
            let first = s.queued[0].predicted_cost;
            let cpu = s.cluster.used_cpu_cores.value() + first.cpu_cores.value();
            let memory = s.cluster.used_memory_gb.value() + first.memory_gb.value();
            let (cores, gigabytes) = (s.cluster.total_cpu_cores, s.cluster.total_memory_gb);
            let limits = s.queue_limits;
            &&& after.queued.len() < s.queued.len() ==> nearly_within(
                cpu,
                cores,
                limits.cpu_percent,
            ) && nearly_within(memory, gigabytes, limits.memory_percent)
            &&& well_within(cpu, cores, limits.cpu_percent) && well_within(
                memory,
                gigabytes,
                limits.memory_percent,
            ) ==> after.queued == s.queued.drop_first()
            &&& after.queued.len() == s.queued.len() ==> after == s
        }),
{
    let first: ResourceCost = s.queued[0].predicted_cost;
    lemma_share_decides(
        s.cluster.used_cpu_cores,
        first.cpu_cores,
        s.cluster.total_cpu_cores,
        s.queue_limits.cpu_percent,
    );
    lemma_share_decides(
        s.cluster.used_memory_gb,
        first.memory_gb,
        s.cluster.total_memory_gb,
        s.queue_limits.memory_percent,
    );
}

/// Whatever is measured, the first simulation of the queue is started where the rounded share of
/// the cores and that of the memory are both at most their limits, and stays otherwise.
pub proof fn both_shares_decide(s: SchedulerView, id: u128, now: Timestamp)
    requires
        s.queued.len() > 0,
    ensures
        ({
            let after = after_admission(s, id, now);
            let first = s.queued[0].predicted_cost;
            let starts = share(
                s.cluster.used_cpu_cores,
                first.cpu_cores,
                s.cluster.total_cpu_cores,
            ).le(s.queue_limits.cpu_percent) && share(
                s.cluster.used_memory_gb,
                first.memory_gb,
                s.cluster.total_memory_gb,
            ).le(s.queue_limits.memory_percent);
            &&& starts ==> after.queued == s.queued.drop_first()
            &&& !starts ==> after == s
        }),
{
}

/// What a cluster may be filled to: requests of others up to 30 percent of the cores, the queue
/// up to 80 percent of them, and both up to 85 percent of the memory. Until it is measured, the
/// cluster is thought to have 1812 cores and 2978 gigabytes, and the namespace 256 and 1024.
pub proof fn limits_and_sizes_at_the_start()
    ensures
        ({
            let s = initial();
            let u = unit() as int;
            &&& s.request_limits.cpu_percent.value() == 30 * u
            &&& s.request_limits.memory_percent.value() == 85 * u
            &&& s.queue_limits.cpu_percent.value() == 80 * u
            &&& s.queue_limits.memory_percent.value() == 85 * u
            &&& s.cluster.total_cpu_cores.value() == 1812 * u
            &&& s.cluster.total_memory_gb.value() == 2978 * u
            &&& s.namespace.allocated_cpu_cores.value() == 256 * u
            &&& s.namespace.allocated_memory_gb.value() == 1024 * u
        }),
{
    lemma2_to64();
    lemma_exact_constant(0x41f0_0000, 0xf0_0000, 130, 0x8_0000, 30, 1);
    lemma_exact_constant(0x42a0_0000, 0xa0_0000, 132, 0x2_0000, 80, 1);
    lemma_exact_constant(0x42aa_0000, 0xaa_0000, 132, 0x2_0000, 85, 1);
    lemma_exact_constant(0x44e2_8000, 0xe2_8000, 136, 0x2000, 1812, 1);
    lemma_exact_constant(0x453a_2000, 0xba_2000, 137, 0x1000, 2978, 1);
    lemma_exact_constant(0x4380_0000, 0x80_0000, 134, 0x8000, 256, 1);
    lemma_exact_constant(0x4480_0000, 0x80_0000, 136, 0x2000, 1024, 1);
}

/// Whether an amount is within a factor of two of another one, even where the factor is taken one
/// part in `2^20` smaller; nothing is asked where the other one is nothing.
pub open spec fn well_believable(observed: Single, estimated: Single) -> bool {
    let (v, w) = (observed.value(), estimated.value());
    w == 0 || (0x10_0001 * w <= 0x10_0000 * (2 * v) && 0x10_0001 * v <= 0x10_0000 * (2 * w))
}

/// Whether an amount is within a factor of two of another one, where the factor is taken one part
/// in `2^20` larger.
pub open spec fn nearly_believable(observed: Single, estimated: Single) -> bool {
    let (v, w) = (observed.value(), estimated.value());
    w == 0 || (0x10_0000 * w <= 0x10_0001 * (2 * v) && 0x10_0000 * v <= 0x10_0001 * (2 * w))
}

/// What a ratio near to `v / w` says of a factor of two.
proof fn lemma_factor_of_two(z: int, v: int, w: int, u: int)
    requires
        u > 0,
        w > 0,
        v > 0,
        near(z, u * v, w, 3),
    ensures
        u <= 2 * z && z <= 2 * u ==> 0x10_0000 * w <= 0x10_0001 * (2 * v) && 0x10_0000 * v
            <= 0x10_0001 * (2 * w),
        0x10_0001 * w <= 0x10_0000 * (2 * v) && 0x10_0001 * v <= 0x10_0000 * (2 * w) ==> u <= 2 * z
            && z <= 2 * u,
{
    let (n, zw, uw): (int, int, int) = (u * v, z * w, u * w);
    assert(u <= 2 * z <==> uw <= 2 * zw) by (nonlinear_arith)
        requires
            zw == z * w,
            uw == u * w,
            w > 0,
    ;
    assert(z <= 2 * u <==> zw <= 2 * uw) by (nonlinear_arith)
        requires
            zw == z * w,
            uw == u * w,
            w > 0,
    ;
    assert(n > 0) by (nonlinear_arith)
        requires
            n == u * v,
            u > 0,
            v > 0,
    ;
    lemma_scale_up(v, w, u, n, uw);
    assert(0xff_fffd * n <= 0x100_0000 * zw <= 0x100_0003 * n);
}

/// One half, one and two.
proof fn lemma_half_one_two()
    ensures
        2 * (Single { bits: 0x3f00_0000 }).value() == unit(),
        (Single { bits: 0x3f80_0000 }).value() == unit(),
        (Single { bits: 0x4000_0000 }).value() == 2 * unit(),
        (Single { bits: 0 }).value() == 0,
        !(Single { bits: 0x3f00_0000 }).is_nan(),
        !(Single { bits: 0x3f80_0000 }).is_nan(),
        !(Single { bits: 0x4000_0000 }).is_nan(),
        unit() > 0,
{
    lemma2_to64();
    lemma_unit();
    lemma_exact_constant(0x3f00_0000, 0x80_0000, 125, 0x100_0000, 1, 2);
    lemma_exact_constant(0x3f80_0000, 0x80_0000, 126, 0x80_0000, 1, 1);
    lemma_exact_constant(0x4000_0000, 0x80_0000, 127, 0x40_0000, 2, 1);
}

/// A rounded ratio decides as the exact one does, but for amounts next to a factor of two.
proof fn lemma_ratio_decides(observed: Single, estimated: Single)
    requires
        ordinary(observed),
        ordinary(estimated),
    ensures
        plausible(believed_ratio(observed, estimated)) ==> nearly_believable(observed, estimated),
        well_believable(observed, estimated) ==> plausible(believed_ratio(observed, estimated)),
{
    lemma_half_one_two();
    lemma_amount(observed);
    lemma_amount(estimated);
    let (v, w, u): (int, int, int) = (amount(observed), amount(estimated), unit() as int);
    if w > 0 {
        let ratio: Single = observed.quotient(estimated);
        assert(believed_ratio(observed, estimated) == ratio);
        if v == 0 {
            lemma_quotient_of_amount(observed, estimated);
            lemma_round_zero(w as nat);
            assert(0 * pow2(149) == 0);
            lemma_amount(ratio);
        } else {
            let big: int = 0x100_0000_0000;
            lemma_near_quotient(observed, v, 1, 0, big, big, estimated, w, 1, 0, big, big);
            lemma_amount(ratio);
            let z: int = amount(ratio);
            assert(near(z, u * v, w, 3)) by {
                assert(u * v * 1 == u * v && 1 * w == w) by (nonlinear_arith);
            }
            lemma_factor_of_two(z, v, w, u);
        }
    }
}

/// Comparisons of multiples stay the same when both sides are scaled.
proof fn lemma_scale_up(v: int, w: int, u: int, n: int, uw: int)
    requires
        u > 0,
        n == u * v,
        uw == u * w,
    ensures
        0x10_0001 * w <= 0x10_0000 * (2 * v) <==> 0x10_0001 * uw <= 0x10_0000 * (2 * n),
        0x10_0001 * v <= 0x10_0000 * (2 * w) <==> 0x10_0001 * n <= 0x10_0000 * (2 * uw),
        0x10_0000 * w <= 0x10_0001 * (2 * v) <==> 0x10_0000 * uw <= 0x10_0001 * (2 * n),
        0x10_0000 * v <= 0x10_0001 * (2 * w) <==> 0x10_0000 * n <= 0x10_0001 * (2 * uw),
{
    let (a, b, c, d): (int, int, int, int) = (
        0x10_0000 * (2 * v) - 0x10_0001 * w,
        0x10_0000 * (2 * w) - 0x10_0001 * v,
        0x10_0001 * (2 * v) - 0x10_0000 * w,
        0x10_0001 * (2 * w) - 0x10_0000 * v,
    );
    assert(a * u == 0x10_0000 * (2 * n) - 0x10_0001 * uw && b * u == 0x10_0000 * (2 * uw)
        - 0x10_0001 * n && c * u == 0x10_0001 * (2 * n) - 0x10_0000 * uw && d * u == 0x10_0001
        * (2 * uw) - 0x10_0000 * n) by (nonlinear_arith)
        requires
            n == u * v,
            uw == u * w,
            a == 0x10_0000 * (2 * v) - 0x10_0001 * w,
            b == 0x10_0000 * (2 * w) - 0x10_0001 * v,
            c == 0x10_0001 * (2 * v) - 0x10_0000 * w,
            d == 0x10_0001 * (2 * w) - 0x10_0000 * v,
    ;
    assert((a >= 0 <==> a * u >= 0) && (b >= 0 <==> b * u >= 0) && (c >= 0 <==> c * u >= 0) && (d
        >= 0 <==> d * u >= 0)) by (nonlinear_arith)
        requires
            u > 0,
    ;
}

/// What was observed is believed where both its cores and its memory are within a factor of two
/// of what is estimated, and then stands in place of the estimate; otherwise, and where nothing
/// was observed, the estimate stands. Only amounts within one part in `2^20` of a factor of two
/// may be decided otherwise, because ratios are rounded.
pub proof fn observations_are_believed_within_a_factor_of_two(
    estimate: ResourceCost,
    observed: ResourceCost,
    cause: String,
)
    requires
        ordinary(estimate.cpu_cores),
        ordinary(estimate.memory_gb),
        ordinary(observed.cpu_cores),
        ordinary(observed.memory_gb),
    ensures
        ({
            let r = checked_cost(estimate, Ok(Some(observed)));
            let kept = ResourceCost {
                cpu_cores: observed.cpu_cores,
                memory_gb: observed.memory_gb,
                monetary_cost_eur: None,
            };
            &&& r == kept || r == estimate
            &&& well_believable(observed.cpu_cores, estimate.cpu_cores) && well_believable(
                observed.memory_gb,
                estimate.memory_gb,
            ) ==> r == kept
            &&& !nearly_believable(observed.cpu_cores, estimate.cpu_cores) || !nearly_believable(
                observed.memory_gb,
                estimate.memory_gb,
            ) ==> r == estimate
        }),
        checked_cost(estimate, Ok(None)) == estimate,
        checked_cost(estimate, Err(cause)) == estimate,
{
    lemma_ratio_decides(observed.cpu_cores, estimate.cpu_cores);
    lemma_ratio_decides(observed.memory_gb, estimate.memory_gb);
}

/// Whatever was observed, it is believed where its ratios to the estimate, rounded, are between
/// one half and two, a ratio to nothing, or to less, counting as one.
pub proof fn ratios_decide_what_is_believed(estimate: ResourceCost, observed: ResourceCost)
    ensures
        ({
            let believed = |o: Single, e: Single|
                {
                    let ratio = o.quotient(e);
                    e.is_nan() || e.value() <= 0 || ((Single { bits: 0x3f00_0000 }).le(ratio)
                        && ratio.le(Single { bits: 0x4000_0000 }))
                };
            let r = checked_cost(estimate, Ok(Some(observed)));
            r == if believed(observed.cpu_cores, estimate.cpu_cores) && believed(
                observed.memory_gb,
                estimate.memory_gb,
            ) {
                ResourceCost { monetary_cost_eur: None, ..observed }
            } else {
                estimate
            }
        }),
{
    lemma_half_one_two();
}

/// The size in the name of a release is the node count cut to whole thousands.
pub proof fn sizes_are_cut_to_thousands(node_count: u32)
    requires
        node_count < 2_000_000,
    ensures
        node_count >= 1000 ==> size_label(node_count) == decimal(node_count as nat / 1000) + "k"@,
        node_count < 1000 ==> size_label(node_count) == decimal(node_count as nat),
{
    sizes_from_one_thousand_are_in_thousands(node_count);
    if node_count >= 1000 {
        lemma_unit();
        lemma2_to64();
        let u: int = unit() as int;
        let n: int = node_count as int;
        let k: int = n / 1000;
        let thousand: Single = Single { bits: 0x447a_0000 };
        lemma_near_constant(0x447a_0000, 0xfa_0000, 135, 0x4000, 1000, 1);
        lemma_sized(thousand, 1000, 4096);
        lemma_exact_constant(0x447a_0000, 0xfa_0000, 135, 0x4000, 1000, 1);
        let ratio: Single = Single::of_int(n).quotient(thousand);
        // not below the whole thousands
        let floor: Single = Single::of_int(1000 * k);
        small_integers_are_exact(n);
        small_integers_are_exact(1000 * k);
        small_integers_are_exact(k);
        let (kn, nn): (int, int) = ((1000 * k) * u, n * u);
        assert(kn <= nn) by (nonlinear_arith)
            requires
                kn == (1000 * k) * u,
                nn == n * u,
                1000 * k <= n,
                u > 0,
        ;
        lemma_quotient_monotone(floor, Single::of_int(n), thousand);
        lemma_quotient_of_amount(floor, thousand);
        lemma_quotient_of_amount(Single::of_int(n), thousand);
        let ku: nat = k as nat * unit();
        assert(amount(floor) == kn);
        assert((kn as nat) * unit() == ku * ((1000 * u) as nat)) by (nonlinear_arith)
            requires
                kn == (1000 * k) * u,
                ku == k as nat * unit(),
                u == unit(),
                k >= 0,
        ;
        lemma_round_same_ratio(ku, 1, (1000 * u) as nat);
        assert(floor.quotient(thousand).magnitude() == round(ku, 1));
        assert(Single::of_int(k).magnitude() == round(ku, 1));
        lemma_amount(Single::of_int(k));
        assert(amount(floor.quotient(thousand)) == k * u);
        // below the next
        lemma_near_int(n);
        assert(nn >= 0 && 1000 * u > 0);
        lemma_near_quotient(
            Single::of_int(n),
            nn,
            1,
            2,
            2,
            2 * n,
            thousand,
            1000 * u,
            1,
            1,
            1000,
            4096,
        );
        assert(u * nn * 1 == nn * u && 1 * (1000 * u) == 1000 * u) by (nonlinear_arith);
        lemma_near_cancel(amount(ratio), nn, 1000, u, 6);
        lemma_amount(ratio);
        lemma_amount(floor.quotient(thousand));
        let z: int = amount(ratio);
        assert(z >= k * u);
        assert(z < (k + 1) * u) by (nonlinear_arith)
            requires
                0x100_0000 * (z * 1000) <= 0x100_0006 * (n * u),
                n <= 1000 * k + 999,
                n < 2_000_000,
                u > 0,
        {
            assert(0x100_0006 * n < 0x100_0000 * (1000 * (k + 1)));
            assert((0x100_0006 * n) * u < (0x100_0000 * (1000 * (k + 1))) * u);
        }
        assert((k + 1) * u <= 0x1_0000_0000 * u) by (nonlinear_arith)
            requires
                k + 1 <= 0x1_0000_0000,
                u > 0,
        ;
        whole_parts_are_cut(ratio);
        let w: int = ratio.whole() as int;
        assert(w == k) by (nonlinear_arith)
            requires
                w * u <= z < (w + 1) * u,
                k * u <= z < (k + 1) * u,
                u > 0,
        ;
    }
}

/// A finite number is written with the one digit after the point that comes nearest to it.
pub proof fn percentages_are_written_to_the_nearest_tenth(x: Single)
    requires
        x.magnitude() < INFINITE,
    ensures
        exists|whole: nat, tenth: nat| #[trigger]
            is_tenths(x, whole, tenth) && one_decimal(x) == if x.negative() {
                "-"@ + decimal(whole) + "."@ + decimal(tenth)
            } else {
                decimal(whole) + "."@ + decimal(tenth)
            },
{
    lemma_unit();
    let n: nat = steps(x.magnitude()) * 10;
    let tenths: nat = half_even(n, unit());
    lemma_half_even_error(n, unit());
    let (whole, tenth): (nat, nat) = (tenths / 10, tenths % 10);
    assert(is_tenths(x, whole, tenth));
    let empty: Seq<char> = Seq::empty();
    assert(empty + decimal(whole) + "."@ + decimal(tenth) =~= decimal(whole) + "."@ + decimal(
        tenth,
    ));
}

/// Whether so many wholes and tenths come nearest to the magnitude of a number.
pub open spec fn is_tenths(x: Single, whole: nat, tenth: nat) -> bool {
    tenth < 10 && 2 * gap(
        ((10 * whole + tenth) * unit()) as int,
        (steps(x.magnitude()) * 10) as int,
    ) <= unit()
}

/// What is spread around a middle by a part of one of the spread stays between numbers that are
/// not inside of the spread.
proof fn lemma_jitter(part: Single, middle: u32, spread: u32, shift: u32, lo: Single, hi: Single)
    requires
        part.is_finite_amount(),
        part.value() <= unit(),
        (Single { bits: middle }).is_finite_amount(),
        (Single { bits: spread }).is_finite_amount(),
        (Single { bits: shift }).is_finite_amount(),
        lo.is_finite_amount(),
        hi.is_finite_amount(),
        (Single { bits: spread }).value() == 2 * (Single { bits: shift }).value(),
        lo.value() <= (Single { bits: middle }).value() - (Single { bits: shift }).value(),
        hi.value() >= (Single { bits: middle }).value() + (Single { bits: shift }).value(),
    ensures
        jittered(middle, spread, shift, part).magnitude() < INFINITE,
        lo.value() <= jittered(middle, spread, shift, part).value() <= hi.value(),
{
    let (m, w, h): (Single, Single, Single) = (
        Single { bits: middle },
        Single { bits: spread },
        Single { bits: shift },
    );
    lemma_part(part, w);
    let p: Single = part.product(w);
    lemma_centred(p, h);
    lemma_shifted(m, p.difference(h), lo, hi);
}

/// So much for each node, where that is between two amounts.
proof fn lemma_nodes_between(n: u32, each: Single, lo: int, hi: int, a: int, b: int)
    requires
        each.magnitude() < INFINITE,
        0 < a,
        0 < b,
        lo <= each.value() <= hi,
        0xff_fffe * (a * unit()) <= 0x100_0000 * (lo * 100),
        0x100_0000 * (hi * 100) <= 0x100_0002 * (b * unit()),
        lo * 1000 >= unit(),
        hi <= unit(),
    ensures
        ({
            let r = Single::of_int(n as int).product(each).value();
            0xf_ffff * (a * n * unit()) <= 0x10_0000 * (100 * r) <= 0x10_0001 * (b * n * unit())
        }),
{
    lemma_unit();
    let u: int = unit() as int;
    let nodes: Single = Single::of_int(n as int);
    let r: Single = nodes.product(each);
    assert(!each.negative());
    lemma_amount(each);
    let j: int = amount(each);
    assert(sized(each, 1000, 4096));
    lemma_sized(each, 1000, 4096);
    if n == 0 {
        small_integers_are_exact(0);
        lemma_amount(nodes);
        lemma_product_of_amounts(nodes, each);
        lemma_round_zero(pow2(149));
        assert(0 * amount(each) == 0);
        assert(a * n * u == 0 && b * n * u == 0) by (nonlinear_arith)
            requires
                n == 0,
        ;
    } else {
        lemma_near_int(n as int);
        assert(n * u >= 0) by (nonlinear_arith)
            requires
                u > 0,
        ;
        lemma_near_product(nodes, n * u, 1, 2, 2, 2 * n, each, j, 1, 0, 1000, 4096);
        assert((n * u) * j == (n * j) * u && 1 * 1 * u == 1 * u) by (nonlinear_arith);
        lemma_near_cancel(amount(r), n * j, 1, u, 5);
        lemma_amount(r);
        let z: int = amount(r);
        assert(0xff_fffb * (n * j) <= 0x100_0000 * z <= 0x100_0005 * (n * j));
        assert(0xf_ffff * (a * n * u) <= 0x10_0000 * (100 * z)) by (nonlinear_arith)
            requires
                0xff_fffb * (n * j) <= 0x100_0000 * z,
                0xff_fffe * (a * u) <= 0x100_0000 * (j * 100),
                n > 0,
                a > 0,
                u > 0,
        {
            assert(0xff_fffe * (a * u) * n <= 0x100_0000 * (j * 100) * n);
            assert(a * n * u == (a * u) * n);
            assert(j * 100 * n == 100 * (n * j));
        }
        assert(0x10_0000 * (100 * z) <= 0x10_0001 * (b * n * u)) by (nonlinear_arith)
            requires
                0x100_0000 * z <= 0x100_0005 * (n * j),
                0x100_0000 * (j * 100) <= 0x100_0002 * (b * u),
                n > 0,
                b > 0,
                u > 0,
        {
            assert(0x100_0000 * (j * 100) * n <= 0x100_0002 * (b * u) * n);
            assert(b * n * u == (b * u) * n);
            assert(j * 100 * n == 100 * (n * j));
        }
    }
}

/// Numbers in use of the same scale, one of them half of another.
proof fn lemma_estimate_bounds()
    ensures
        ({
            let v = |bits: u32| (Single { bits: bits }).value();
            let u = unit() as int;
            &&& v(0x3d23_d70a) == 2 * v(0x3ca3_d70a)
            &&& v(0x3ca3_d70a) == 2 * v(0x3c23_d70a)
            &&& v(0x3e23_d70a) <= v(0x3e38_51ec) - v(0x3ca3_d70a)
            &&& v(0x3e4c_ccce) >= v(0x3e38_51ec) + v(0x3ca3_d70a)
            &&& v(0x3d23_d70a) <= v(0x3d4c_cccd) - v(0x3c23_d70a)
            &&& v(0x3d75_c290) >= v(0x3d4c_cccd) + v(0x3c23_d70a)
            &&& 0xff_fffe * (16 * u) <= 0x100_0000 * (v(0x3e23_d70a) * 100)
            &&& 0x100_0000 * (v(0x3e4c_ccce) * 100) <= 0x100_0002 * (20 * u)
            &&& 0xff_fffe * (4 * u) <= 0x100_0000 * (v(0x3d23_d70a) * 100)
            &&& 0x100_0000 * (v(0x3d75_c290) * 100) <= 0x100_0002 * (6 * u)
            &&& v(0x3e23_d70a) * 1000 >= u
            &&& v(0x3d23_d70a) * 1000 >= u
            &&& v(0x3e4c_ccce) <= u
            &&& v(0x3d75_c290) <= u
        }),
        (Single { bits: 0x3d23_d70a }).is_finite_amount(),
        (Single { bits: 0x3ca3_d70a }).is_finite_amount(),
        (Single { bits: 0x3c23_d70a }).is_finite_amount(),
        (Single { bits: 0x3e23_d70a }).is_finite_amount(),
        (Single { bits: 0x3e38_51ec }).is_finite_amount(),
        (Single { bits: 0x3e4c_ccce }).is_finite_amount(),
        (Single { bits: 0x3d4c_cccd }).is_finite_amount(),
        (Single { bits: 0x3d75_c290 }).is_finite_amount(),
{
    lemma2_to64();
    let b: int = pow2(119) as int;
    lemma_pow2_adds(119, 1);
    lemma_pow2_adds(119, 2);
    lemma_pow2_adds(119, 4);
    lemma_pow2_adds(119, 30);
    lemma_pow2_pos(119);
    assert(pow2(120) == 2 * b && pow2(121) == 4 * b && pow2(123) == 16 * b && unit() == 0x4000_0000
        * b);
    lemma_constant(0x3c23_d70a, 0xa3_d70a, 119);
    lemma_constant(0x3ca3_d70a, 0xa3_d70a, 120);
    lemma_constant(0x3d23_d70a, 0xa3_d70a, 121);
    lemma_constant(0x3e23_d70a, 0xa3_d70a, 123);
    lemma_constant(0x3e38_51ec, 0xb8_51ec, 123);
    lemma_constant(0x3e4c_ccce, 0xcc_ccce, 123);
    lemma_constant(0x3d4c_cccd, 0xcc_cccd, 121);
    lemma_constant(0x3d75_c290, 0xf5_c290, 121);
}

/// The estimate for a made-up simulation is between 0.16 and 0.2 cores and between 0.04 and 0.06
/// gigabytes for each node, up to one part in `2^20`, whatever parts of one were drawn.
pub proof fn estimates_stay_in_their_range(node_count: u32, cpu: Single, memory: Single)
    requires
        cpu.is_finite_amount(),
        cpu.value() <= unit(),
        memory.is_finite_amount(),
        memory.value() <= unit(),
    ensures
        ({
            let r = mock_estimate(node_count, cpu, memory);
            let nodes = node_count * unit();
            &&& 0xf_ffff * (16 * nodes) <= 0x10_0000 * (100 * r.cpu_cores.value()) <= 0x10_0001 * (
            20 * nodes)
            &&& 0xf_ffff * (4 * nodes) <= 0x10_0000 * (100 * r.memory_gb.value()) <= 0x10_0001 * (6
                * nodes)
        }),
{
    lemma_estimate_bounds();
    let (a, b): (Single, Single) = (Single { bits: 0x3e23_d70a }, Single { bits: 0x3e4c_ccce });
    let (c, d): (Single, Single) = (Single { bits: 0x3d23_d70a }, Single { bits: 0x3d75_c290 });
    lemma_jitter(cpu, 0x3e38_51ec, 0x3d23_d70a, 0x3ca3_d70a, a, b);
    lemma_jitter(memory, 0x3d4c_cccd, 0x3ca3_d70a, 0x3c23_d70a, c, d);
    let j: Single = jittered(0x3e38_51ec, 0x3d23_d70a, 0x3ca3_d70a, cpu);
    let k: Single = jittered(0x3d4c_cccd, 0x3ca3_d70a, 0x3c23_d70a, memory);
    lemma_nodes_between(node_count, j, a.value(), b.value(), 16, 20);
    lemma_nodes_between(node_count, k, c.value(), d.value(), 4, 6);
    let u: int = unit() as int;
    assert(16 * node_count * u == 16 * (node_count * u) && 20 * node_count * u == 20 * (node_count
        * u) && 4 * node_count * u == 4 * (node_count * u) && 6 * node_count * u == 6 * (node_count
        * u)) by (nonlinear_arith);
}

/// A price is what the cores and the memory cost for the hours, each by its own rate. Whatever the
/// cost is, this is how it is worked out.
pub proof fn prices_are_worked_out_by_the_hour(cost: ResourceCost, secs: u32)
    ensures
        ({
            let time = Single::of_int(secs as int).quotient(Single { bits: 0x4561_0000 });
            let cpu = cost.cpu_cores.product(Single { bits: 0x3c23_d70a }).product(time);
            let memory = cost.memory_gb.product(Single { bits: 0x3ba3_d70a }).product(time);
            monetary_cost(cost, secs) == cpu.sum(memory)
        }),
{
}

/// The cost by default is worked out as the nodes times so much for each.
pub proof fn defaults_are_worked_out_by_the_node(params: SimulationParamsView)
    ensures
        ({
            let nodes = Single::of_int(params.node_count as int);
            let r = default_cost(params);
            &&& params.chart == "waku"@ ==> {
                &&& r.cpu_cores == nodes.product(Single { bits: 0x3dcc_cccd })
                &&& r.memory_gb == nodes.product(Single { bits: 0x3d4c_cccd })
            }
            &&& params.chart != "waku"@ ==> {
                &&& r.cpu_cores == nodes.product(Single { bits: 0x3da3_d70a })
                &&& r.memory_gb == nodes.product(Single { bits: 0x3d23_d70a })
            }
        }),
{
}

} // verus!
