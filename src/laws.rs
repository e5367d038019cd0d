use vstd::prelude::*;
use crate::backward::{
    is_backward_order, lemma_reaches_below_root, lemma_reaches_self, reaches, routes_of, GradRule,
    Route,
};
use crate::graph::Graph;
use crate::engine::{
    backward_chain, grad_or_zeros, node_step, route_chain, route_step, seeded, TensorContext,
};
use crate::rules::{
    accumulated, contribution_rel, deterministic, elementwise_rel, forward_rel, gathered,
    total_rel, Arith,
};
use crate::tensor::Node;
use crate::tensor::{
    lemma_total_len_prefix, node_wf, operands, product, total_len, Operation, TensorRef,
};

verus! {

/// In a backward order a tensor comes after every tensor that reads it, so by its turn every
/// contribution to its gradient has been added.
pub proof fn law_consumers_come_first(
    g: Graph,
    root: TensorRef,
    order: Seq<TensorRef>,
    a: int,
    b: int,
)
    requires
        g.wf(),
        root < g@.len(),
        is_backward_order(g@, root as int, order),
        0 <= a < order.len(),
        0 <= b < order.len(),
        operands(g@[order[a] as int].operation).contains(order[b]),
    ensures
        a < b,
{
    let c = order[a] as int;
    assert(c <= root);
    assert(node_wf(g@, c));
    let ops = operands(g@[c].operation);
    let m = choose|m: int| 0 <= m < ops.len() && ops[m] == order[b];
    assert(ops[m] < c);
}

/// Every operand of a tensor in a backward order is in the order too: the gradient reaches all
/// that it flows through.
pub proof fn law_backward_order_covers_operands(
    g: Graph,
    root: TensorRef,
    order: Seq<TensorRef>,
    a: int,
    o: TensorRef,
)
    requires
        g.wf(),
        root < g@.len(),
        is_backward_order(g@, root as int, order),
        0 <= a < order.len(),
        operands(g@[order[a] as int].operation).contains(o),
    ensures
        order.contains(o),
{
    let c = order[a] as int;
    assert(c <= root);
    assert(order.contains(c as usize));
    assert(reaches(g@, root as int, c));
    assert(node_wf(g@, c));
    let ops = operands(g@[c].operation);
    let m = choose|m: int| 0 <= m < ops.len() && ops[m] == o;
    assert(ops[m] < c);
    lemma_reaches_below_root(g@, root as int, o as int);
    assert(reaches(g@, root as int, o as int));
}

proof fn lemma_same_shape_same_len(g: Graph, x: TensorRef, y: TensorRef)
    requires
        g.wf(),
        x < g@.len(),
        y < g@.len(),
        g@[x as int].shape@ == g@[y as int].shape@,
    ensures
        g@[x as int].len == g@[y as int].len,
{
    assert(node_wf(g@, x as int));
    assert(node_wf(g@, y as int));
}

proof fn lemma_operand_reached(g: Graph, h: TensorRef, k: int)
    requires
        g.wf(),
        h < g@.len(),
        0 <= k < operands(g@[h as int].operation).len(),
    ensures
        reaches(g@, h as int, operands(g@[h as int].operation)[k] as int),
{
    let ops = operands(g@[h as int].operation);
    assert(node_wf(g@, h as int));
    assert(ops[k] < h);
    lemma_reaches_self(g@, h);
    assert(ops.contains(ops[k]));
    lemma_reaches_below_root(g@, h as int, ops[k] as int);
}

/// The gradient of a tensor recorded as the sum of `a` and `b` goes to both operands unchanged,
/// and all three tensors have the same length.
pub proof fn law_add_passes_gradient(g: Graph, h: TensorRef, a: TensorRef, b: TensorRef)
    requires
        g.wf(),
        h < g@.len(),
        g@[h as int].operation matches Some(Operation::Add(_)),
        operands(g@[h as int].operation) == seq![a, b],
    ensures
        routes_of(g@, h as int) == seq![
            Route { target: a, rule: GradRule::Pass },
            Route { target: b, rule: GradRule::Pass },
        ],
        g@[a as int].len == g@[h as int].len,
        g@[b as int].len == g@[h as int].len,
        reaches(g@, h as int, a as int),
        reaches(g@, h as int, b as int),
{
    let ops = operands(g@[h as int].operation);
    assert(node_wf(g@, h as int));
    assert(ops[0] == a && ops[1] == b);
    assert(ops[0] < h && ops[1] < h);
    assert(g@[ops[0] as int].shape@ == g@[h as int].shape@);
    assert(g@[ops[1] as int].shape@ == g@[h as int].shape@);
    lemma_same_shape_same_len(g, a, h);
    lemma_same_shape_same_len(g, b, h);
    lemma_operand_reached(g, h, 0);
    lemma_operand_reached(g, h, 1);
    assert(routes_of(g@, h as int) =~= seq![
        Route { target: a, rule: GradRule::Pass },
        Route { target: b, rule: GradRule::Pass },
    ]);
}

/// The gradient of the product of `a` and `b` reaches `a` scaled by the values of `b`, and `b`
/// scaled by the values of `a`; all three tensors have the same length.
pub proof fn law_mul_scales_gradient(g: Graph, h: TensorRef, a: TensorRef, b: TensorRef)
    requires
        g.wf(),
        h < g@.len(),
        g@[h as int].operation == Some(Operation::Mul(a, b)),
    ensures
        routes_of(g@, h as int) == seq![
            Route { target: a, rule: GradRule::ScaleByDataOf(b) },
            Route { target: b, rule: GradRule::ScaleByDataOf(a) },
        ],
        g@[a as int].len == g@[h as int].len,
        g@[b as int].len == g@[h as int].len,
        reaches(g@, h as int, a as int),
        reaches(g@, h as int, b as int),
{
    let ops = operands(g@[h as int].operation);
    assert(node_wf(g@, h as int));
    assert(ops[0] == a && ops[1] == b);
    assert(ops[0] < h && ops[1] < h);
    lemma_same_shape_same_len(g, a, h);
    lemma_same_shape_same_len(g, b, h);
    lemma_operand_reached(g, h, 0);
    lemma_operand_reached(g, h, 1);
}

/// The total of `x` is a one-element tensor whose gradient value is spread over every element
/// of `x`.
pub proof fn law_sum_broadcasts_gradient(g: Graph, h: TensorRef, x: TensorRef)
    requires
        g.wf(),
        h < g@.len(),
        g@[h as int].operation == Some(Operation::Sum(x)),
    ensures
        routes_of(g@, h as int) == seq![Route { target: x, rule: GradRule::Broadcast }],
        g@[h as int].shape@ == seq![1usize],
        g@[h as int].len == 1,
        reaches(g@, h as int, x as int),
{
    assert(node_wf(g@, h as int));
    let s = g@[h as int].shape@;
    assert(s.drop_last() =~= Seq::<usize>::empty());
    assert(product(Seq::<usize>::empty()) == 1);
    assert(product(s) == 1);
    assert(operands(g@[h as int].operation)[0] == x);
    lemma_operand_reached(g, h, 0);
}

/// The gradient of a concatenation is cut into consecutive slices, one per operand in order:
/// each starts where the one before it ends, the first at zero, and the last ends at the
/// concatenation's length, which is the sum of the operands' lengths.
pub proof fn law_concat_slices_tile(g: Graph, h: TensorRef)
    requires
        g.wf(),
        h < g@.len(),
        g@[h as int].operation matches Some(Operation::Concat(_)),
    ensures
        ({
            let v = operands(g@[h as int].operation);
            let rs = routes_of(g@, h as int);
            &&& g@[h as int].shape@ == seq![g@[h as int].len]
            &&& g@[h as int].len == total_len(g@, v)
            &&& rs.len() == v.len()
            &&& total_len(g@, v.take(0)) == 0
            &&& total_len(g@, v.take(v.len() as int)) == g@[h as int].len
            &&& forall|k: int|
                0 <= k < v.len() ==> {
                    &&& #[trigger] rs[k] == Route {
                        target: v[k],
                        rule: GradRule::Slice {
                            start: total_len(g@, v.take(k)) as usize,
                            len: g@[v[k] as int].len,
                        },
                    }
                    &&& total_len(g@, v.take(k)) <= g@[h as int].len
                    &&& total_len(g@, v.take(k)) + g@[v[k] as int].len == total_len(
                        g@,
                        v.take(k + 1),
                    )
                }
        }),
{
    let v = operands(g@[h as int].operation);
    assert(node_wf(g@, h as int));
    assert(v.take(0) =~= Seq::<TensorRef>::empty());
    assert(v.take(v.len() as int) =~= v);
    assert forall|k: int| 0 <= k < v.len() implies total_len(g@, v.take(k)) <= g@[h as int].len
        && total_len(g@, v.take(k)) + g@[v[k] as int].len == total_len(g@, v.take(k + 1)) by {
        lemma_total_len_prefix(g@, v, k);
        assert(v.take(k + 1).drop_last() =~= v.take(k));
        assert(v.take(k + 1).last() == v[k]);
    }
}

/// Recomputing a sum, difference or product from unchanged operands gives the same values
/// again, for any arithmetic that is a function of its operands.
pub proof fn law_elementwise_repeatable<T, F: Fn(Arith, T, T) -> T>(
    arith: F,
    op: Arith,
    a: Seq<T>,
    b: Seq<T>,
    r1: Seq<T>,
    r2: Seq<T>,
)
    requires
        deterministic(arith),
        elementwise_rel(arith, op, a, b, r1),
        elementwise_rel(arith, op, a, b, r2),
    ensures
        r1 == r2,
{
    assert forall|i: int| 0 <= i < r1.len() implies r1[i] == r2[i] by {
        assert(arith.ensures((op, a[i], b[i]), r1[i]));
        assert(arith.ensures((op, a[i], b[i]), r2[i]));
    }
    assert(r1 =~= r2);
}

/// The concatenation of `a` and `b` holds the values of `a` followed by those of `b`, its
/// length is the sum of theirs, and its gradient goes back to `a` as its first `len(a)` values
/// and to `b` as the rest.
pub proof fn law_concat_two<T, F: Fn(Arith, T, T) -> T>(
    arith: F,
    g: Graph,
    vals: Seq<Seq<T>>,
    h: TensorRef,
    a: TensorRef,
    b: TensorRef,
    exponent: T,
    zero: T,
    r: Seq<T>,
    grad: Seq<T>,
    ca: Seq<T>,
    cb: Seq<T>,
)
    requires
        g.wf(),
        h < g@.len(),
        g@[h as int].operation matches Some(Operation::Concat(_)),
        operands(g@[h as int].operation) == seq![a, b],
        forward_rel(arith, g@, vals, h as int, exponent, zero, r),
        contribution_rel(arith, routes_of(g@, h as int)[0], vals, grad, exponent, zero, ca),
        contribution_rel(arith, routes_of(g@, h as int)[1], vals, grad, exponent, zero, cb),
    ensures
        r == vals[a as int] + vals[b as int],
        g@[h as int].len == g@[a as int].len + g@[b as int].len,
        ca == grad.subrange(0, g@[a as int].len as int),
        cb == grad.subrange(g@[a as int].len as int, g@[h as int].len as int),
{
    let v = seq![a, b];
    law_concat_slices_tile(g, h);
    assert(v.take(0) =~= Seq::<TensorRef>::empty());
    assert(v.take(1) =~= seq![a]);
    assert(v.take(1).drop_last() =~= Seq::<TensorRef>::empty());
    assert(v.take(2) =~= v);
    assert(v.drop_last() =~= seq![a]);
    assert(seq![a].drop_last() =~= Seq::<TensorRef>::empty());
    assert(gathered(vals, Seq::<TensorRef>::empty()) =~= Seq::<T>::empty());
    assert(gathered(vals, seq![a]) =~= vals[a as int]);
    assert(total_len(g@, v.take(1)) == g@[a as int].len);
}

/// The routes of a tensor target its operands, in order.
pub proof fn lemma_route_targets(nodes: Seq<Node>, h: int)
    ensures
        routes_of(nodes, h).len() == operands(nodes[h].operation).len(),
        forall|k: int|
            0 <= k < routes_of(nodes, h).len() ==> #[trigger] routes_of(nodes, h)[k].target
                == operands(nodes[h].operation)[k],
{
}

/// Below `h`, the gradient of `h` reaches only its operands when they are all leaves.
proof fn lemma_reach_one_level(nodes: Seq<Node>, h: int, i: int)
    requires
        forall|j: int| 0 <= j < nodes.len() ==> #[trigger] node_wf(nodes, j),
        0 <= i < h < nodes.len(),
        forall|k: int|
            0 <= k < operands(nodes[h].operation).len() ==> nodes[operands(
                nodes[h].operation,
            )[k] as int].operation is None,
        reaches(nodes, h, i),
    ensures
        operands(nodes[h].operation).contains(i as usize),
    decreases h - i,
{
    lemma_reaches_below_root(nodes, h, i);
    let c = choose|c: int|
        i + 1 <= c <= h && #[trigger] reaches(nodes, h, c) && operands(nodes[c].operation).contains(
            i as usize,
        );
    if c < h {
        lemma_reach_one_level(nodes, h, c);
        let ops = operands(nodes[h].operation);
        let m = choose|m: int| 0 <= m < ops.len() && ops[m] == c as usize;
        assert(nodes[c].operation is None);
    }
}

proof fn lemma_routes_fill<T, F: Fn(Arith, T, T) -> T>(
    arith: F,
    nodes: Seq<Node>,
    vals: Seq<Seq<T>>,
    exps: Seq<T>,
    zero: T,
    h: int,
    inner: Seq<Seq<Option<Seq<T>>>>,
    k: int,
)
    requires
        0 <= h < inner[0].len(),
        route_chain(arith, nodes, vals, exps, zero, h, inner),
        0 <= k < inner.len(),
        forall|a: int, b: int|
            0 <= a < b < operands(nodes[h].operation).len() ==> operands(nodes[h].operation)[a]
                != operands(nodes[h].operation)[b],
        forall|a: int|
            0 <= a < operands(nodes[h].operation).len() ==> {
                &&& #[trigger] operands(nodes[h].operation)[a] < h
                &&& inner[0][operands(nodes[h].operation)[a] as int] is None
            },
    ensures
        inner[k].len() == inner[0].len(),
        inner[k][h] == inner[0][h],
        forall|a: int|
            0 <= a < operands(nodes[h].operation).len() ==> {
                let t = #[trigger] operands(nodes[h].operation)[a] as int;
                &&& a < k ==> inner[k][t] is Some && contribution_rel(
                    arith,
                    routes_of(nodes, h)[a],
                    vals,
                    grad_or_zeros(inner[0], h, nodes[h].len as nat, zero),
                    exps[h],
                    zero,
                    inner[k][t]->Some_0,
                )
                &&& a >= k ==> inner[k][t] == inner[0][t]
            },
    decreases k,
{
    lemma_route_targets(nodes, h);
    let ops = operands(nodes[h].operation);
    if k > 0 {
        lemma_routes_fill(arith, nodes, vals, exps, zero, h, inner, k - 1);
        let before = inner[k - 1];
        let after = inner[k];
        assert(route_step(arith, nodes, vals, exps, zero, h, k - 1, inner[k - 1], inner[(k - 1) + 1]));
        assert(inner[(k - 1) + 1] == after);
        let t = routes_of(nodes, h)[k - 1].target as int;
        assert(t == ops[k - 1]);
        let c = choose|c: Seq<T>|
            #[trigger] contribution_rel(
                arith,
                routes_of(nodes, h)[k - 1],
                vals,
                grad_or_zeros(before, h, nodes[h].len as nat, zero),
                exps[h],
                zero,
                c,
            ) && accumulated(arith, before[t], c, after[t]);
        assert(before[t] == inner[0][t]);
        assert(after[t] == Some(c));
        assert(h != t);
        assert(after[h] == before[h]);
        assert forall|a: int| 0 <= a < ops.len() implies {
            let u = #[trigger] ops[a] as int;
            &&& a < k ==> after[u] is Some && contribution_rel(
                arith,
                routes_of(nodes, h)[a],
                vals,
                grad_or_zeros(inner[0], h, nodes[h].len as nat, zero),
                exps[h],
                zero,
                after[u]->Some_0,
            )
            &&& a >= k ==> after[u] == inner[0][u]
        } by {
            let u = ops[a] as int;
            if a != k - 1 {
                assert(u != t);
                assert(after[u] == before[u]);
            }
        }
    }
}

/// After the backward pass from a tensor whose operands are distinct leaves that had no
/// gradient, each operand holds exactly the contribution of its route, formed from the gradient
/// of the tensor (zeros where none was set).
pub proof fn law_backwards_reaches_leaf_operands<T: Copy, F: Fn(Arith, T, T) -> T + Copy>(
    ctx: TensorContext<T, F>,
    h: TensorRef,
    result: Seq<Option<Seq<T>>>,
)
    requires
        ctx.wf(),
        h < ctx.nodes().len(),
        forall|a: int, b: int|
            0 <= a < b < operands(ctx.nodes()[h as int].operation).len() ==> operands(
                ctx.nodes()[h as int].operation,
            )[a] != operands(ctx.nodes()[h as int].operation)[b],
        forall|a: int|
            0 <= a < operands(ctx.nodes()[h as int].operation).len() ==> {
                let t = #[trigger] operands(ctx.nodes()[h as int].operation)[a] as int;
                &&& ctx.nodes()[t].operation is None
                &&& ctx.gradients()[t] is None
            },
        ctx.backward_result(h, result),
    ensures
        forall|a: int|
            0 <= a < routes_of(ctx.nodes(), h as int).len() ==> {
                let t = #[trigger] routes_of(ctx.nodes(), h as int)[a].target as int;
                &&& result[t] is Some
                &&& contribution_rel(
                    ctx.arith(),
                    routes_of(ctx.nodes(), h as int)[a],
                    ctx.values(),
                    grad_or_zeros(
                        ctx.gradients(),
                        h as int,
                        ctx.nodes()[h as int].len as nat,
                        ctx.zero(),
                    ),
                    ctx.exponents()[h as int],
                    ctx.zero(),
                    result[t]->Some_0,
                )
            },
{
    ctx.lemma_nodes_wf();
    let nodes = ctx.nodes();
    let vals = ctx.values();
    let exps = ctx.exponents();
    let zero = ctx.zero();
    let arith = ctx.arith();
    let len = nodes[h as int].len as nat;
    let ops = operands(nodes[h as int].operation);
    lemma_route_targets(nodes, h as int);
    assert(node_wf(nodes, h as int));
    let (order, states) = choose|order: Seq<TensorRef>, states: Seq<Seq<Option<Seq<T>>>>|
        {
            &&& is_backward_order(nodes, h as int, order)
            &&& #[trigger] backward_chain(arith, nodes, vals, exps, zero, order, states)
            &&& states[0] == seeded(ctx.gradients(), h as int, len, zero)
            &&& states.last() == result
        };
    // The order starts at `h`, and every later entry is a leaf operand of `h`.
    lemma_reaches_self(nodes, h);
    assert(order.contains(h));
    let p = choose|p: int| 0 <= p < order.len() && order[p] == h;
    if p > 0 {
        assert(order[0] > order[p]);
    }
    assert(order[0] == h);
    assert forall|j: int| 1 <= j < order.len() implies #[trigger] states[j + 1] == states[j] by {
        let i = order[j] as int;
        assert(i < h);
        assert(order.contains(order[j]));
        lemma_reach_one_level(nodes, h as int, i);
        let m = choose|m: int| 0 <= m < ops.len() && ops[m] == i as usize;
        assert(nodes[i].operation is None);
        assert(node_step(arith, nodes, vals, exps, zero, i, states[j], states[j + 1]));
        let inner = choose|inner: Seq<Seq<Option<Seq<T>>>>|
            #[trigger] route_chain(arith, nodes, vals, exps, zero, i, inner) && inner[0]
                == states[j] && inner.last() == states[j + 1];
        assert(routes_of(nodes, i).len() == 0);
    }
    assert forall|j: int| 1 <= j < states.len() implies #[trigger] states[j] == states[1] by {
        lemma_states_constant(states, j);
    }
    assert(node_step(arith, nodes, vals, exps, zero, order[0] as int, states[0], states[0int + 1]));
    assert(node_step(arith, nodes, vals, exps, zero, h as int, states[0], states[1]));
    let inner = choose|inner: Seq<Seq<Option<Seq<T>>>>|
        #[trigger] route_chain(arith, nodes, vals, exps, zero, h as int, inner) && inner[0]
            == states[0] && inner.last() == states[1];
    assert(ctx.gradients().len() == nodes.len());
    assert forall|a: int| 0 <= a < ops.len() implies {
        &&& #[trigger] ops[a] < h
        &&& inner[0][ops[a] as int] is None
    } by {
        assert(ops[a] < h);
    }
    lemma_routes_fill(arith, nodes, vals, exps, zero, h as int, inner, ops.len() as int);
    assert(grad_or_zeros(inner[0], h as int, len, zero) == grad_or_zeros(
        ctx.gradients(),
        h as int,
        len,
        zero,
    ));
    assert(result == states[1]);
}

proof fn lemma_states_constant<S>(states: Seq<S>, j: int)
    requires
        1 <= j < states.len(),
        forall|i: int| 1 <= i < states.len() - 1 ==> #[trigger] states[i + 1] == states[i],
    ensures
        states[j] == states[1],
    decreases j,
{
    if j > 1 {
        lemma_states_constant(states, j - 1);
        assert(states[(j - 1) + 1] == states[j - 1]);
    }
}

/// After `set_grad(h, g)` and the backward pass from `h = a + b`, where `a` and `b` are
/// distinct leaves without gradients, both hold `g`.
pub proof fn law_backwards_add<T: Copy, F: Fn(Arith, T, T) -> T + Copy>(
    ctx: TensorContext<T, F>,
    h: TensorRef,
    a: TensorRef,
    b: TensorRef,
    g: Seq<T>,
    result: Seq<Option<Seq<T>>>,
)
    requires
        ctx.wf(),
        h < ctx.nodes().len(),
        ctx.nodes()[h as int].operation matches Some(Operation::Add(_)),
        operands(ctx.nodes()[h as int].operation) == seq![a, b],
        a != b,
        ctx.nodes()[a as int].operation is None && ctx.gradients()[a as int] is None,
        ctx.nodes()[b as int].operation is None && ctx.gradients()[b as int] is None,
        ctx.gradients()[h as int] == Some(g),
        ctx.backward_result(h, result),
    ensures
        result[a as int] == Some(g),
        result[b as int] == Some(g),
{
    let ops = operands(ctx.nodes()[h as int].operation);
    assert(ops[0] == a && ops[1] == b);
    law_backwards_reaches_leaf_operands(ctx, h, result);
    assert(routes_of(ctx.nodes(), h as int)[0].target == a);
    assert(routes_of(ctx.nodes(), h as int)[1].target == b);
}

/// After `set_grad(h, g)` and the backward pass from `h = a * b`, where `a` and `b` are
/// distinct leaves without gradients, `a` holds `g * b` and `b` holds `g * a`, elementwise.
pub proof fn law_backwards_mul<T: Copy, F: Fn(Arith, T, T) -> T + Copy>(
    ctx: TensorContext<T, F>,
    h: TensorRef,
    a: TensorRef,
    b: TensorRef,
    g: Seq<T>,
    result: Seq<Option<Seq<T>>>,
)
    requires
        ctx.wf(),
        h < ctx.nodes().len(),
        ctx.nodes()[h as int].operation == Some(Operation::Mul(a, b)),
        a != b,
        ctx.nodes()[a as int].operation is None && ctx.gradients()[a as int] is None,
        ctx.nodes()[b as int].operation is None && ctx.gradients()[b as int] is None,
        ctx.gradients()[h as int] == Some(g),
        ctx.backward_result(h, result),
    ensures
        result[a as int] is Some,
        result[b as int] is Some,
        elementwise_rel(ctx.arith(), Arith::Mul, g, ctx.values()[b as int], result[a as int]->Some_0),
        elementwise_rel(ctx.arith(), Arith::Mul, g, ctx.values()[a as int], result[b as int]->Some_0),
{
    law_backwards_reaches_leaf_operands(ctx, h, result);
    assert(routes_of(ctx.nodes(), h as int)[0].target == a);
    assert(routes_of(ctx.nodes(), h as int)[1].target == b);
}

/// After `set_grad(h, [v])` and the backward pass from the total `h` of a leaf `x` without a
/// gradient, every element of the gradient of `x` is `v`.
pub proof fn law_backwards_sum<T: Copy, F: Fn(Arith, T, T) -> T + Copy>(
    ctx: TensorContext<T, F>,
    h: TensorRef,
    x: TensorRef,
    v: T,
    result: Seq<Option<Seq<T>>>,
)
    requires
        ctx.wf(),
        h < ctx.nodes().len(),
        ctx.nodes()[h as int].operation == Some(Operation::Sum(x)),
        ctx.nodes()[x as int].operation is None && ctx.gradients()[x as int] is None,
        ctx.gradients()[h as int] == Some(seq![v]),
        ctx.backward_result(h, result),
    ensures
        result[x as int] == Some(Seq::new(ctx.nodes()[x as int].len as nat, |i: int| v)),
{
    ctx.lemma_nodes_wf();
    law_backwards_reaches_leaf_operands(ctx, h, result);
    assert(routes_of(ctx.nodes(), h as int)[0].target == x);
    assert(node_wf(ctx.nodes(), h as int));
    assert(operands(ctx.nodes()[h as int].operation)[0] == x);
    assert(x < h);
    assert(ctx.values()[x as int].len() == ctx.nodes()[x as int].len);
    assert(result[x as int]->Some_0 =~= Seq::new(ctx.nodes()[x as int].len as nat, |i: int| v));
}

/// The part of `g` that belongs to operand `k` of the concatenation `h`: it starts at the
/// summed length of the operands before it and is as long as the operand.
pub open spec fn operand_slice<T>(nodes: Seq<Node>, h: int, k: int, g: Seq<T>) -> Seq<T> {
    let v = operands(nodes[h].operation);
    let start = total_len(nodes, v.take(k));
    g.subrange(start, start + nodes[v[k] as int].len)
}

/// After `set_grad(h, g)` and the backward pass from a concatenation `h` of distinct leaves
/// without gradients, operand `k` holds the slice of `g` that starts at the summed length of
/// the operands before it and is as long as the operand.
pub proof fn law_backwards_concat<T: Copy, F: Fn(Arith, T, T) -> T + Copy>(
    ctx: TensorContext<T, F>,
    h: TensorRef,
    g: Seq<T>,
    result: Seq<Option<Seq<T>>>,
)
    requires
        ctx.wf(),
        h < ctx.nodes().len(),
        ctx.nodes()[h as int].operation matches Some(Operation::Concat(_)),
        forall|a: int, b: int|
            0 <= a < b < operands(ctx.nodes()[h as int].operation).len() ==> operands(
                ctx.nodes()[h as int].operation,
            )[a] != operands(ctx.nodes()[h as int].operation)[b],
        forall|a: int|
            0 <= a < operands(ctx.nodes()[h as int].operation).len() ==> {
                let t = #[trigger] operands(ctx.nodes()[h as int].operation)[a] as int;
                &&& ctx.nodes()[t].operation is None
                &&& ctx.gradients()[t] is None
            },
        ctx.gradients()[h as int] == Some(g),
        ctx.backward_result(h, result),
    ensures
        forall|k: int|
            0 <= k < operands(ctx.nodes()[h as int].operation).len() ==> #[trigger] result[operands(
                ctx.nodes()[h as int].operation,
            )[k] as int] == Some(operand_slice(ctx.nodes(), h as int, k, g)),
{
    ctx.lemma_nodes_wf();
    assert(g.len() == ctx.nodes()[h as int].len);
    law_backwards_reaches_leaf_operands(ctx, h, result);
    let v = operands(ctx.nodes()[h as int].operation);
    lemma_route_targets(ctx.nodes(), h as int);
    assert forall|k: int| 0 <= k < v.len() implies #[trigger] result[v[k] as int] == Some(
        operand_slice(ctx.nodes(), h as int, k, g),
    ) by {
        assert(routes_of(ctx.nodes(), h as int)[k].target == v[k]);
        lemma_total_len_prefix(ctx.nodes(), v, k);
        assert(node_wf(ctx.nodes(), h as int));
        law_concat_slices_tile_ctx(ctx, h, k);
    }
}

proof fn law_concat_slices_tile_ctx<T: Copy, F: Fn(Arith, T, T) -> T + Copy>(
    ctx: TensorContext<T, F>,
    h: TensorRef,
    k: int,
)
    requires
        ctx.wf(),
        h < ctx.nodes().len(),
        ctx.nodes()[h as int].operation matches Some(Operation::Concat(_)),
        0 <= k < operands(ctx.nodes()[h as int].operation).len(),
    ensures
        total_len(ctx.nodes(), operands(ctx.nodes()[h as int].operation).take(k)) <= ctx.nodes()[h as int].len,
        total_len(ctx.nodes(), operands(ctx.nodes()[h as int].operation).take(k)) >= 0,
{
    ctx.lemma_nodes_wf();
    assert(node_wf(ctx.nodes(), h as int));
    let v = operands(ctx.nodes()[h as int].operation);
    lemma_total_len_prefix(ctx.nodes(), v, k);
}

} // verus!
