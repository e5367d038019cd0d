use vstd::prelude::*;
use crate::backward::{routes_of, GradRule, Route};
use crate::graph::Graph;
use crate::laws::{law_concat_slices_tile, law_sum_broadcasts_gradient};
use crate::tensor::{node_wf, operands, total_len, EngineError, Node, Operation, TensorRef};

verus! {

/// The scalar operations that the forward and backward rules ask of the number type. The
/// engine is generic over that type; the caller supplies one function that performs them.
#[derive(Debug, Clone, Copy, PartialEq, Eq, Structural)]
pub enum Arith {
    /// `a + b`.
    Add,
    /// `a - b`.
    Sub,
    /// `a * b`.
    Mul,
    /// `a` raised to the power `b`.
    Pow,
    /// `max(a, 0)`; `b` is not read.
    Relu,
    /// `a` where `b > 0`, else zero.
    Gate,
    /// The slope of `x ↦ x^b` at `a`, that is `b · a^(b − 1)`.
    PowSlope,
}

/// Whether `arith` accepts every operation and operands.
pub open spec fn total_arith<T, F: Fn(Arith, T, T) -> T>(arith: F) -> bool {
    forall|op: Arith, a: T, b: T| #[trigger] arith.requires((op, a, b))
}

/// Whether `arith` gives one result for each operation and operands.
pub open spec fn deterministic<T, F: Fn(Arith, T, T) -> T>(arith: F) -> bool {
    forall|op: Arith, a: T, b: T, r1: T, r2: T|
        #[trigger] arith.ensures((op, a, b), r1) && #[trigger] arith.ensures((op, a, b), r2) ==> r1
            == r2
}

/// Whether `r` is `op` applied to `a` and `b` element by element.
pub open spec fn elementwise_rel<T, F: Fn(Arith, T, T) -> T>(
    arith: F,
    op: Arith,
    a: Seq<T>,
    b: Seq<T>,
    r: Seq<T>,
) -> bool {
    &&& r.len() == a.len()
    &&& b.len() == a.len()
    &&& forall|i: int| 0 <= i < r.len() ==> #[trigger] arith.ensures((op, a[i], b[i]), r[i])
}

/// Whether `r` is `op` applied to each element of `a` with the fixed second operand `c`.
pub open spec fn map_rel<T, F: Fn(Arith, T, T) -> T>(
    arith: F,
    op: Arith,
    a: Seq<T>,
    c: T,
    r: Seq<T>,
) -> bool {
    &&& r.len() == a.len()
    &&& forall|i: int| 0 <= i < r.len() ==> #[trigger] arith.ensures((op, a[i], c), r[i])
}

/// Whether `partial` holds the running totals of `a`, from `zero` on.
pub open spec fn running_totals<T, F: Fn(Arith, T, T) -> T>(
    arith: F,
    zero: T,
    a: Seq<T>,
    partial: Seq<T>,
) -> bool {
    &&& partial.len() == a.len() + 1
    &&& partial[0] == zero
    &&& forall|j: int|
        0 <= j < a.len() ==> #[trigger] arith.ensures((Arith::Add, partial[j], a[j]), partial[j + 1])
}

/// Whether `t` is the total of `a`, added from left to right starting at `zero`.
pub open spec fn total_rel<T, F: Fn(Arith, T, T) -> T>(arith: F, zero: T, a: Seq<T>, t: T) -> bool {
    exists|partial: Seq<T>| #[trigger] running_totals(arith, zero, a, partial) && partial.last() == t
}

/// The buffers of `refs`, one after the other.
pub open spec fn gathered<T>(vals: Seq<Seq<T>>, refs: Seq<TensorRef>) -> Seq<T>
    decreases refs.len(),
{
    if refs.len() == 0 {
        seq![]
    } else {
        gathered(vals, refs.drop_last()) + vals[refs.last() as int]
    }
}

/// The contents of each buffer.
pub open spec fn views<T>(buffers: Seq<Vec<T>>) -> Seq<Seq<T>> {
    buffers.map_values(|b: Vec<T>| b@)
}

/// Whether there is one buffer per tensor of the graph, of the length the graph records.
pub open spec fn fits<T>(nodes: Seq<Node>, vals: Seq<Seq<T>>) -> bool {
    &&& vals.len() == nodes.len()
    &&& forall|i: int| 0 <= i < vals.len() ==> #[trigger] vals[i].len() == nodes[i].len
}

/// Whether the buffers of every tensor before `h` have the lengths the graph records, and so
/// does the buffer of `h` itself when `h` is a leaf.
pub open spec fn fits_below<T>(nodes: Seq<Node>, vals: Seq<Seq<T>>, h: int) -> bool {
    &&& vals.len() >= h
    &&& forall|i: int| 0 <= i < h ==> #[trigger] vals[i].len() == nodes[i].len
    &&& nodes[h].operation is None ==> h < vals.len() && vals[h].len() == nodes[h].len
}

/// Whether `r` is the value of tensor `h` computed by its recorded operation from the values of
/// its operands; a leaf keeps its own values. `exponent` is the exponent of a power.
pub open spec fn forward_rel<T, F: Fn(Arith, T, T) -> T>(
    arith: F,
    nodes: Seq<Node>,
    vals: Seq<Seq<T>>,
    h: int,
    exponent: T,
    zero: T,
    r: Seq<T>,
) -> bool {
    match nodes[h].operation {
        None => r == vals[h],
        Some(Operation::Add(v)) => elementwise_rel(
            arith,
            Arith::Add,
            vals[v@[0] as int],
            vals[v@[1] as int],
            r,
        ),
        Some(Operation::Sub(a, b)) => elementwise_rel(
            arith,
            Arith::Sub,
            vals[a as int],
            vals[b as int],
            r,
        ),
        Some(Operation::Mul(a, b)) => elementwise_rel(
            arith,
            Arith::Mul,
            vals[a as int],
            vals[b as int],
            r,
        ),
        Some(Operation::Pow(x)) => map_rel(arith, Arith::Pow, vals[x as int], exponent, r),
        Some(Operation::Sum(x)) => r.len() == 1 && total_rel(arith, zero, vals[x as int], r[0]),
        Some(Operation::Concat(v)) => r == gathered(vals, v@),
        Some(Operation::ReLU(x)) => map_rel(arith, Arith::Relu, vals[x as int], zero, r),
    }
}

/// Whether `c` is the gradient `g` times the slope of the power with exponent `p` at `x`.
pub open spec fn pow_contribution<T, F: Fn(Arith, T, T) -> T>(
    arith: F,
    x: T,
    p: T,
    g: T,
    c: T,
) -> bool {
    exists|s: T|
        #[trigger] arith.ensures((Arith::PowSlope, x, p), s) && arith.ensures((Arith::Mul, s, g), c)
}

/// Whether `c` is the contribution that `route` makes from the output gradient `g` of a tensor
/// whose exponent, for a power, is `exponent`.
pub open spec fn contribution_rel<T, F: Fn(Arith, T, T) -> T>(
    arith: F,
    route: Route,
    vals: Seq<Seq<T>>,
    g: Seq<T>,
    exponent: T,
    zero: T,
    c: Seq<T>,
) -> bool {
    let x = vals[route.target as int];
    match route.rule {
        GradRule::Pass => c == g,
        GradRule::Negate => c.len() == g.len() && forall|i: int|
            0 <= i < c.len() ==> #[trigger] arith.ensures((Arith::Sub, zero, g[i]), c[i]),
        GradRule::ScaleByDataOf(o) => elementwise_rel(arith, Arith::Mul, g, vals[o as int], c),
        GradRule::Broadcast => c == Seq::new(x.len(), |i: int| g[0]),
        GradRule::Slice { start, len } => c == g.subrange(start as int, start + len),
        GradRule::ReluGate => elementwise_rel(arith, Arith::Gate, g, x, c),
        GradRule::PowRule => c.len() == g.len() && x.len() == g.len() && forall|i: int|
            0 <= i < c.len() ==> #[trigger] pow_contribution(arith, x[i], exponent, g[i], c[i]),
    }
}

/// Applies `op` to `a` and `b` element by element.
pub fn zip_with<T: Copy, F: Fn(Arith, T, T) -> T>(
    a: &Vec<T>,
    b: &Vec<T>,
    op: Arith,
    arith: F,
) -> (r: Vec<T>)
    requires
        a@.len() == b@.len(),
        total_arith(arith),
    ensures
        elementwise_rel(arith, op, a@, b@, r@),
{
    let mut r: Vec<T> = Vec::new();
    let mut i: usize = 0;
    while i < a.len()
        invariant
            i <= a@.len(),
            a@.len() == b@.len(),
            total_arith(arith),
            r@.len() == i,
            forall|j: int| 0 <= j < i ==> #[trigger] arith.ensures((op, a@[j], b@[j]), r@[j]),
        decreases a@.len() - i,
    {
        let v = arith(op, a[i], b[i]);
        r.push(v);
        i = i + 1;
    }
    r
}

/// Applies `op` to each element of `a`, with `c` as the second operand.
pub fn map_with<T: Copy, F: Fn(Arith, T, T) -> T>(a: &Vec<T>, c: T, op: Arith, arith: F) -> (r: Vec<
    T,
>)
    requires
        total_arith(arith),
    ensures
        map_rel(arith, op, a@, c, r@),
{
    let mut r: Vec<T> = Vec::new();
    let mut i: usize = 0;
    while i < a.len()
        invariant
            i <= a@.len(),
            total_arith(arith),
            r@.len() == i,
            forall|j: int| 0 <= j < i ==> #[trigger] arith.ensures((op, a@[j], c), r@[j]),
        decreases a@.len() - i,
    {
        let v = arith(op, a[i], c);
        r.push(v);
        i = i + 1;
    }
    r
}

/// The total of `a`, added from left to right starting at `zero`.
pub fn total<T: Copy, F: Fn(Arith, T, T) -> T>(a: &Vec<T>, zero: T, arith: F) -> (t: T)
    requires
        total_arith(arith),
    ensures
        total_rel(arith, zero, a@, t),
{
    let mut acc = zero;
    let ghost mut partial: Seq<T> = seq![zero];
    let mut i: usize = 0;
    while i < a.len()
        invariant
            i <= a@.len(),
            total_arith(arith),
            partial.len() == i + 1,
            partial[0] == zero,
            partial.last() == acc,
            forall|j: int|
                0 <= j < i ==> #[trigger] arith.ensures(
                    (Arith::Add, partial[j], a@[j]),
                    partial[j + 1],
                ),
        decreases a@.len() - i,
    {
        let next = arith(Arith::Add, acc, a[i]);
        proof {
            let p2 = partial.push(next);
            assert forall|j: int| 0 <= j < i + 1 implies #[trigger] arith.ensures(
                (Arith::Add, p2[j], a@[j]),
                p2[j + 1],
            ) by {
                if j < i {
                    assert(p2[j] == partial[j] && p2[j + 1] == partial[j + 1]);
                }
            }
            partial = p2;
        }
        acc = next;
        i = i + 1;
    }
    proof {
        assert(running_totals(arith, zero, a@, partial));
    }
    acc
}

/// The buffers of `refs`, one after the other.
pub fn gather<T: Copy>(buffers: &Vec<Vec<T>>, refs: &Vec<TensorRef>) -> (r: Vec<T>)
    requires
        forall|k: int| 0 <= k < refs@.len() ==> #[trigger] refs@[k] < buffers@.len(),
    ensures
        r@ == gathered(views(buffers@), refs@),
{
    let mut r: Vec<T> = Vec::new();
    let mut k: usize = 0;
    while k < refs.len()
        invariant
            k <= refs@.len(),
            forall|j: int| 0 <= j < refs@.len() ==> #[trigger] refs@[j] < buffers@.len(),
            r@ == gathered(views(buffers@), refs@.take(k as int)),
        decreases refs@.len() - k,
    {
        let b = &buffers[refs[k]];
        let ghost before = r@;
        let mut i: usize = 0;
        while i < b.len()
            invariant
                i <= b@.len(),
                r@ == before + b@.take(i as int),
            decreases b@.len() - i,
        {
            r.push(b[i]);
            proof {
                assert(b@.take(i + 1) =~= b@.take(i as int).push(b@[i as int]));
            }
            i = i + 1;
        }
        proof {
            assert(b@.take(i as int) =~= b@);
            assert(refs@.take(k + 1).drop_last() =~= refs@.take(k as int));
            assert(views(buffers@)[refs@[k as int] as int] == b@);
        }
        k = k + 1;
    }
    proof {
        assert(refs@.take(k as int) =~= refs@);
    }
    r
}

/// Whether `n` is `d + step * g`, computed as a product and then a sum.
pub open spec fn update_rel<T, F: Fn(Arith, T, T) -> T>(arith: F, d: T, g: T, step: T, n: T) -> bool {
    exists|m: T| #[trigger] arith.ensures((Arith::Mul, step, g), m) && arith.ensures((Arith::Add, d, m), n)
}

/// What the graph's invariant says of the lengths that a route of tensor `h` works with.
pub open spec fn route_fits(nodes: Seq<Node>, h: int, route: Route) -> bool {
    let t = route.target as int;
    &&& t < h
    &&& match route.rule {
        GradRule::ScaleByDataOf(o) => o < nodes.len() && nodes[o as int].len == nodes[h].len
            && nodes[t].len == nodes[h].len,
        GradRule::Broadcast => nodes[h].len == 1,
        GradRule::Slice { start, len } => start + len <= nodes[h].len && len == nodes[t].len,
        _ => nodes[t].len == nodes[h].len,
    }
}

pub proof fn lemma_same_len(g: Graph, a: int, b: int)
    requires
        g.wf(),
        0 <= a < g@.len(),
        0 <= b < g@.len(),
        g@[a].shape@ == g@[b].shape@,
    ensures
        g@[a].len == g@[b].len,
{
    assert(node_wf(g@, a));
    assert(node_wf(g@, b));
}

/// Each route of a tensor targets an earlier tensor, and the lengths it reads agree.
pub proof fn lemma_route_fits(g: Graph, h: TensorRef, k: int)
    requires
        g.wf(),
        h < g@.len(),
        0 <= k < routes_of(g@, h as int).len(),
    ensures
        route_fits(g@, h as int, routes_of(g@, h as int)[k]),
{
    let n = g@[h as int];
    let ops = operands(n.operation);
    assert(node_wf(g@, h as int));
    match n.operation {
        Some(Operation::Add(v)) => {
            assert(routes_of(g@, h as int)[k] == Route { target: v@[k], rule: GradRule::Pass });
            assert(ops[k] == v@[k] && ops[k] < h);
            assert(g@[v@[k] as int].shape@ == n.shape@);
            lemma_same_len(g, v@[k] as int, h as int);
        },
        Some(Operation::Sub(l, r)) => {
            assert(ops[0] == l && ops[1] == r && ops[0] < h && ops[1] < h);
            lemma_same_len(g, l as int, h as int);
            lemma_same_len(g, r as int, h as int);
        },
        Some(Operation::Mul(l, r)) => {
            assert(ops[0] == l && ops[1] == r && ops[0] < h && ops[1] < h);
            lemma_same_len(g, l as int, h as int);
            lemma_same_len(g, r as int, h as int);
        },
        Some(Operation::Pow(x)) => {
            assert(ops[0] == x && ops[0] < h);
            lemma_same_len(g, x as int, h as int);
        },
        Some(Operation::ReLU(x)) => {
            assert(ops[0] == x && ops[0] < h);
            lemma_same_len(g, x as int, h as int);
        },
        Some(Operation::Sum(x)) => {
            assert(ops[0] == x && ops[0] < h);
            law_sum_broadcasts_gradient(g, h, x);
        },
        Some(Operation::Concat(v)) => {
            assert(ops[k] == v@[k] && ops[k] < h);
            law_concat_slices_tile(g, h);
            lemma_total_len_fits(g@, v@, k);
            crate::tensor::lemma_total_len_prefix(g@, v@, k);
            let st = total_len(g@, v@.take(k));
            assert(st as usize as int == st);
        },
        None => {},
    }
}

proof fn lemma_total_len_fits(nodes: Seq<Node>, v: Seq<TensorRef>, k: int)
    requires
        0 <= k < v.len(),
        total_len(nodes, v.take(k)) + nodes[v[k] as int].len == total_len(nodes, v.take(k + 1)),
    ensures
        total_len(nodes, v.take(k + 1)) <= total_len(nodes, v),
{
    crate::tensor::lemma_total_len_prefix(nodes, v, k + 1);
}

pub proof fn lemma_gathered_len<T>(
    nodes: Seq<Node>,
    vals: Seq<Seq<T>>,
    refs: Seq<TensorRef>,
    bound: int,
)
    requires
        bound <= nodes.len(),
        forall|i: int| 0 <= i < bound ==> #[trigger] vals[i].len() == nodes[i].len,
        forall|k: int| 0 <= k < refs.len() ==> #[trigger] refs[k] < bound,
    ensures
        gathered(vals, refs).len() == total_len(nodes, refs),
    decreases refs.len(),
{
    if refs.len() > 0 {
        let d = refs.drop_last();
        assert forall|k: int| 0 <= k < d.len() implies #[trigger] d[k] < bound by {
            assert(d[k] == refs[k]);
        }
        lemma_gathered_len(nodes, vals, d, bound);
        assert(refs[refs.len() - 1] < bound);
    }
}

/// A copy of `v`.
pub fn copy_of<T: Copy>(v: &Vec<T>) -> (r: Vec<T>)
    ensures
        r@ == v@,
{
    let mut r: Vec<T> = Vec::new();
    let mut i: usize = 0;
    while i < v.len()
        invariant
            i <= v@.len(),
            r@ == v@.take(i as int),
        decreases v@.len() - i,
    {
        r.push(v[i]);
        proof {
            assert(v@.take(i + 1) =~= v@.take(i as int).push(v@[i as int]));
        }
        i = i + 1;
    }
    proof {
        assert(v@.take(i as int) =~= v@);
    }
    r
}

/// The value of tensor `h` computed by its recorded operation from the current values of its
/// operands (a leaf keeps its own). This is the forward rule of each operation: elementwise
/// sum, difference and product, power, total, concatenation and rectification. `InvalidRef`
/// for a handle never issued.
pub fn forward<T: Copy, F: Fn(Arith, T, T) -> T>(
    graph: &Graph,
    buffers: &Vec<Vec<T>>,
    h: TensorRef,
    exponent: T,
    zero: T,
    arith: F,
) -> (r: Result<Vec<T>, EngineError>)
    requires
        graph.wf(),
        h < graph@.len() ==> fits_below(graph@, views(buffers@), h as int),
        total_arith(arith),
    ensures
        r.is_ok() <==> h < graph@.len(),
        r matches Err(e) ==> e == EngineError::InvalidRef,
        r matches Ok(v) ==> v@.len() == graph@[h as int].len && forward_rel(
            arith,
            graph@,
            views(buffers@),
            h as int,
            exponent,
            zero,
            v@,
        ),
{
    let node = match graph.node(h) {
        Ok(n) => n,
        Err(e) => {
            return Err(e);
        },
    };
    let ghost vals = views(buffers@);
    proof {
        assert(node_wf(graph@, h as int));
    }
    let ghost ops = operands(node.operation);
    match &node.operation {
        None => {
            proof {
                assert(vals[h as int] == buffers@[h as int]@);
            }
            Ok(copy_of(&buffers[h]))
        },
        Some(Operation::Add(v)) => {
            let a = v[0];
            let b = v[1];
            proof {
                assert(ops[0] == a && ops[1] == b && ops[0] < h && ops[1] < h);
                lemma_same_len(*graph, a as int, h as int);
                lemma_same_len(*graph, b as int, h as int);
                assert(vals[a as int] == buffers@[a as int]@);
                assert(vals[b as int] == buffers@[b as int]@);
            }
            Ok(zip_with(&buffers[a], &buffers[b], Arith::Add, arith))
        },
        Some(Operation::Sub(a, b)) => {
            proof {
                assert(ops[0] == *a && ops[1] == *b && ops[0] < h && ops[1] < h);
                lemma_same_len(*graph, *a as int, h as int);
                lemma_same_len(*graph, *b as int, h as int);
                assert(vals[*a as int] == buffers@[*a as int]@);
                assert(vals[*b as int] == buffers@[*b as int]@);
            }
            Ok(zip_with(&buffers[*a], &buffers[*b], Arith::Sub, arith))
        },
        Some(Operation::Mul(a, b)) => {
            proof {
                assert(ops[0] == *a && ops[1] == *b && ops[0] < h && ops[1] < h);
                lemma_same_len(*graph, *a as int, h as int);
                lemma_same_len(*graph, *b as int, h as int);
                assert(vals[*a as int] == buffers@[*a as int]@);
                assert(vals[*b as int] == buffers@[*b as int]@);
            }
            Ok(zip_with(&buffers[*a], &buffers[*b], Arith::Mul, arith))
        },
        Some(Operation::Pow(x)) => {
            proof {
                assert(ops[0] == *x && ops[0] < h);
                lemma_same_len(*graph, *x as int, h as int);
                assert(vals[*x as int] == buffers@[*x as int]@);
            }
            Ok(map_with(&buffers[*x], exponent, Arith::Pow, arith))
        },
        Some(Operation::ReLU(x)) => {
            proof {
                assert(ops[0] == *x && ops[0] < h);
                lemma_same_len(*graph, *x as int, h as int);
                assert(vals[*x as int] == buffers@[*x as int]@);
            }
            Ok(map_with(&buffers[*x], zero, Arith::Relu, arith))
        },
        Some(Operation::Sum(x)) => {
            proof {
                assert(ops[0] == *x && ops[0] < h);
                law_sum_broadcasts_gradient(*graph, h, *x);
                assert(vals[*x as int] == buffers@[*x as int]@);
            }
            let t = total(&buffers[*x], zero, arith);
            Ok(vec![t])
        },
        Some(Operation::Concat(v)) => {
            proof {
                assert forall|k: int| 0 <= k < v@.len() implies #[trigger] v@[k] < h by {
                    assert(ops[k] == v@[k] && ops[k] < h);
                }
                lemma_gathered_len(graph@, vals, v@, h as int);
            }
            Ok(gather(buffers, v))
        },
    }
}

/// The contribution that `route`, one of the routes of tensor `h`, makes from the gradient
/// `out_grad` of `h` (see [`contribution_rel`]). `exponent` is the exponent of `h` when it is
/// a power.
pub fn contribution<T: Copy, F: Fn(Arith, T, T) -> T>(
    graph: &Graph,
    buffers: &Vec<Vec<T>>,
    h: TensorRef,
    k: usize,
    out_grad: &Vec<T>,
    exponent: T,
    zero: T,
    arith: F,
) -> (c: Vec<T>)
    requires
        graph.wf(),
        fits(graph@, views(buffers@)),
        h < graph@.len(),
        k < routes_of(graph@, h as int).len(),
        out_grad@.len() == graph@[h as int].len,
        total_arith(arith),
    ensures
        c@.len() == graph@[routes_of(graph@, h as int)[k as int].target as int].len,
        contribution_rel(
            arith,
            routes_of(graph@, h as int)[k as int],
            views(buffers@),
            out_grad@,
            exponent,
            zero,
            c@,
        ),
{
    let ghost route = routes_of(graph@, h as int)[k as int];
    let ghost vals = views(buffers@);
    let routes = match graph.grad_routes(h) {
        Ok(r) => r,
        Err(_) => Vec::new(),
    };
    let route_x = routes[k];
    proof {
        lemma_route_fits(*graph, h, k as int);
        assert(route_x == route);
        assert(vals[route.target as int] == buffers@[route.target as int]@);
    }
    let x = &buffers[route_x.target];
    match route_x.rule {
        GradRule::Pass => copy_of(out_grad),
        GradRule::Negate => {
            let mut c: Vec<T> = Vec::new();
            let mut i: usize = 0;
            while i < out_grad.len()
                invariant
                    i <= out_grad@.len(),
                    total_arith(arith),
                    c@.len() == i,
                    forall|j: int|
                        0 <= j < i ==> #[trigger] arith.ensures(
                            (Arith::Sub, zero, out_grad@[j]),
                            c@[j],
                        ),
                decreases out_grad@.len() - i,
            {
                let v = arith(Arith::Sub, zero, out_grad[i]);
                c.push(v);
                i = i + 1;
            }
            c
        },
        GradRule::ScaleByDataOf(o) => {
            proof {
                assert(vals[o as int] == buffers@[o as int]@);
            }
            zip_with(out_grad, &buffers[o], Arith::Mul, arith)
        },
        GradRule::Broadcast => {
            let g0 = out_grad[0];
            let mut c: Vec<T> = Vec::new();
            let mut i: usize = 0;
            while i < x.len()
                invariant
                    i <= x@.len(),
                    out_grad@.len() >= 1,
                    c@ == Seq::new(i as nat, |j: int| out_grad@[0]),
                    g0 == out_grad@[0],
                decreases x@.len() - i,
            {
                c.push(g0);
                proof {
                    assert(c@ =~= Seq::new((i + 1) as nat, |j: int| out_grad@[0]));
                }
                i = i + 1;
            }
            c
        },
        GradRule::Slice { start, len } => {
            let mut c: Vec<T> = Vec::new();
            let mut i: usize = 0;
            while i < len
                invariant
                    i <= len,
                    start + len <= out_grad.len(),
                    c@ == out_grad@.subrange(start as int, start + i),
                decreases len - i,
            {
                c.push(out_grad[start + i]);
                proof {
                    assert(c@ =~= out_grad@.subrange(start as int, start + i + 1));
                }
                i = i + 1;
            }
            c
        },
        GradRule::ReluGate => zip_with(out_grad, x, Arith::Gate, arith),
        GradRule::PowRule => {
            let mut c: Vec<T> = Vec::new();
            let mut i: usize = 0;
            while i < out_grad.len()
                invariant
                    i <= out_grad@.len(),
                    x@.len() == out_grad@.len(),
                    total_arith(arith),
                    c@.len() == i,
                    forall|j: int|
                        0 <= j < i ==> #[trigger] pow_contribution(
                            arith,
                            x@[j],
                            exponent,
                            out_grad@[j],
                            c@[j],
                        ),
                decreases out_grad@.len() - i,
            {
                let s = arith(Arith::PowSlope, x[i], exponent);
                let v = arith(Arith::Mul, s, out_grad[i]);
                c.push(v);
                proof {
                    assert(pow_contribution(arith, x@[i as int], exponent, out_grad@[i as int], v));
                }
                i = i + 1;
            }
            c
        },
    }
}

/// Whether the gradient slot `after` is `before` with the contribution `c` added: an empty
/// slot takes the contribution as it is, a filled one adds it element by element.
pub open spec fn accumulated<T, F: Fn(Arith, T, T) -> T>(
    arith: F,
    before: Option<Seq<T>>,
    c: Seq<T>,
    after: Option<Seq<T>>,
) -> bool {
    &&& after is Some
    &&& before is None ==> after == Some(c)
    &&& before matches Some(g) ==> elementwise_rel(arith, Arith::Add, g, c, after->Some_0)
}

/// The contents of a gradient slot.
pub open spec fn slot_view<T>(o: Option<Vec<T>>) -> Option<Seq<T>> {
    match o {
        Some(v) => Some(v@),
        None => None,
    }
}

/// The slot `slot` with the contribution `c` added (see [`accumulated`]).
pub fn accumulate<T: Copy, F: Fn(Arith, T, T) -> T>(
    slot: &Option<Vec<T>>,
    c: Vec<T>,
    arith: F,
) -> (r: Option<Vec<T>>)
    requires
        total_arith(arith),
        slot matches Some(g) ==> g@.len() == c@.len(),
    ensures
        accumulated(arith, slot_view(*slot), c@, slot_view(r)),
        r matches Some(n) && n@.len() == c@.len(),
{
    match slot {
        Some(g) => Some(zip_with(g, &c, Arith::Add, arith)),
        None => Some(c),
    }
}

/// `n` copies of `v`.
pub fn filled<T: Copy>(n: usize, v: T) -> (r: Vec<T>)
    ensures
        r@ == Seq::new(n as nat, |i: int| v),
{
    let mut r: Vec<T> = Vec::new();
    let mut i: usize = 0;
    while i < n
        invariant
            i <= n,
            r@ == Seq::new(i as nat, |j: int| v),
        decreases n - i,
    {
        r.push(v);
        proof {
            assert(r@ =~= Seq::new((i + 1) as nat, |j: int| v));
        }
        i = i + 1;
    }
    r
}

/// `data[i] := data[i] + step * grad[i]` for every element. Gradient descent passes the
/// learning rate negated as `step`.
pub fn apply_update<T: Copy, F: Fn(Arith, T, T) -> T>(
    data: &mut Vec<T>,
    grad: &Vec<T>,
    step: T,
    arith: F,
)
    requires
        total_arith(arith),
        old(data)@.len() == grad@.len(),
    ensures
        final(data)@.len() == old(data)@.len(),
        forall|i: int|
            0 <= i < grad@.len() ==> #[trigger] update_rel(
                arith,
                old(data)@[i],
                grad@[i],
                step,
                final(data)@[i],
            ),
{
    let ghost start = data@;
    let mut i: usize = 0;
    while i < grad.len()
        invariant
            i <= grad@.len(),
            data@.len() == grad@.len(),
            start.len() == grad@.len(),
            total_arith(arith),
            forall|j: int| i <= j < data@.len() ==> data@[j] == start[j],
            forall|j: int|
                0 <= j < i ==> #[trigger] update_rel(arith, start[j], grad@[j], step, data@[j]),
        decreases grad@.len() - i,
    {
        let m = arith(Arith::Mul, step, grad[i]);
        let n = arith(Arith::Add, data[i], m);
        data.set(i, n);
        proof {
            assert(update_rel(arith, start[i as int], grad@[i as int], step, n));
        }
        i = i + 1;
    }
}

} // verus!
