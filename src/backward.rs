use vstd::prelude::*;
use crate::graph::Graph;
use crate::tensor::{
    lemma_total_len_prefix, node_wf, operands, total_len, EngineError, Node, Operation, TensorRef,
};

verus! {

/// How the gradient of a tensor is turned into a contribution to one of its operands, which is
/// then added to whatever that operand has already received.
#[derive(Debug, Clone, Copy, PartialEq, Eq, Structural)]
pub enum GradRule {
    /// The output gradient unchanged.
    Pass,
    /// The output gradient negated.
    Negate,
    /// The output gradient times the values of the given tensor, elementwise.
    ScaleByDataOf(TensorRef),
    /// The single value of the output gradient, repeated over every element of the operand.
    Broadcast,
    /// The part of the output gradient that starts at `start` and holds `len` values.
    Slice { start: usize, len: usize },
    /// The output gradient where the operand's own value is positive, and zero elsewhere.
    ReluGate,
    /// The output gradient times the derivative of the power at the operand's own values.
    PowRule,
}

/// One gradient contribution: the operand that receives it and how it is formed.
#[derive(Debug, Clone, Copy, PartialEq, Eq, Structural)]
pub struct Route {
    pub target: TensorRef,
    pub rule: GradRule,
}

/// The contributions that the gradient of tensor `h` makes to its operands, in operand order.
pub open spec fn routes_of(nodes: Seq<Node>, h: int) -> Seq<Route> {
    match nodes[h].operation {
        None => seq![],
        Some(Operation::Add(v)) => Seq::new(
            v@.len(),
            |k: int| Route { target: v@[k], rule: GradRule::Pass },
        ),
        Some(Operation::Sub(l, r)) => seq![
            Route { target: l, rule: GradRule::Pass },
            Route { target: r, rule: GradRule::Negate },
        ],
        Some(Operation::Mul(l, r)) => seq![
            Route { target: l, rule: GradRule::ScaleByDataOf(r) },
            Route { target: r, rule: GradRule::ScaleByDataOf(l) },
        ],
        Some(Operation::Pow(x)) => seq![Route { target: x, rule: GradRule::PowRule }],
        Some(Operation::Sum(x)) => seq![Route { target: x, rule: GradRule::Broadcast }],
        Some(Operation::Concat(v)) => Seq::new(
            v@.len(),
            |k: int|
                Route {
                    target: v@[k],
                    rule: GradRule::Slice {
                        start: total_len(nodes, v@.take(k)) as usize,
                        len: nodes[v@[k] as int].len,
                    },
                },
        ),
        Some(Operation::ReLU(x)) => seq![Route { target: x, rule: GradRule::ReluGate }],
    }
}

/// Whether `p` is a chain of tensors in which each one after the first is an operand of the one
/// before it.
pub open spec fn is_path(nodes: Seq<Node>, p: Seq<TensorRef>) -> bool {
    &&& p.len() >= 1
    &&& forall|k: int| 0 <= k < p.len() ==> #[trigger] p[k] < nodes.len()
    &&& forall|k: int|
        0 <= k < p.len() - 1 ==> operands(nodes[#[trigger] p[k] as int].operation).contains(
            p[k + 1],
        )
}

/// Whether the gradient of `root` flows into `h`: some chain of operands leads from `root` to
/// `h`.
pub open spec fn reaches(nodes: Seq<Node>, root: int, h: int) -> bool {
    exists|p: Seq<TensorRef>| #[trigger] is_path(nodes, p) && p[0] == root && p.last() == h
}

/// Whether some tensor at a position in `lo..=root` that `root` reaches reads `j`.
pub open spec fn read_from_above(nodes: Seq<Node>, root: int, lo: int, j: int) -> bool {
    exists|c: int|
        lo <= c <= root && #[trigger] reaches(nodes, root, c) && operands(
            nodes[c].operation,
        ).contains(j as usize)
}

/// Whether `order` lists each tensor that the gradient of `root` reaches exactly once, from
/// the last created to the first.
pub open spec fn is_backward_order(nodes: Seq<Node>, root: int, order: Seq<TensorRef>) -> bool {
    &&& forall|a: int, b: int| 0 <= a < b < order.len() ==> order[a] > order[b]
    &&& forall|k: int| 0 <= k < order.len() ==> #[trigger] order[k] <= root
    &&& forall|h: int| 0 <= h <= root ==> (order.contains(h as usize) <==> reaches(nodes, root, h))
}

/// Whether every tensor of `nodes` satisfies its invariant.
pub open spec fn all_wf(nodes: Seq<Node>) -> bool {
    forall|i: int| 0 <= i < nodes.len() ==> #[trigger] node_wf(nodes, i)
}

proof fn lemma_path_descends(nodes: Seq<Node>, p: Seq<TensorRef>, k: int)
    requires
        all_wf(nodes),
        is_path(nodes, p),
        0 <= k < p.len(),
    ensures
        0 <= p[k] <= p[0],
        k > 0 ==> p[k] < p[k - 1],
    decreases k,
{
    if k > 0 {
        lemma_path_descends(nodes, p, k - 1);
        let c = p[k - 1] as int;
        assert(p[k] < nodes.len());
        assert(p[k - 1] < nodes.len());
        assert(node_wf(nodes, c));
        let ops = operands(nodes[c].operation);
        assert(ops.contains(p[(k - 1) + 1]));
        assert(ops.contains(p[k]));
        let m = choose|m: int| 0 <= m < ops.len() && ops[m] == p[k];
        assert(ops[m] < c);
    }
}

/// The gradient of a tensor reaches the tensor itself.
pub proof fn lemma_reaches_self(nodes: Seq<Node>, root: TensorRef)
    requires
        root < nodes.len(),
    ensures
        reaches(nodes, root as int, root as int),
{
    let p = seq![root];
    assert(is_path(nodes, p));
}

/// Below `root`, the gradient reaches `h` exactly when some tensor above `h` that it reaches
/// reads `h`.
pub proof fn lemma_reaches_below_root(nodes: Seq<Node>, root: int, h: int)
    requires
        all_wf(nodes),
        0 <= h < root < nodes.len(),
    ensures
        reaches(nodes, root, h) == read_from_above(nodes, root, h + 1, h),
{
    if reaches(nodes, root, h) {
        let p = choose|p: Seq<TensorRef>| #[trigger] is_path(nodes, p) && p[0] == root && p.last() == h;
        let n = p.len();
        assert(n >= 2);
        lemma_path_descends(nodes, p, n - 1);
        lemma_path_descends(nodes, p, n - 2);
        let c = p[n - 2] as int;
        let q = p.drop_last();
        assert(is_path(nodes, q)) by {
            assert forall|k: int| 0 <= k < q.len() - 1 implies operands(
                nodes[#[trigger] q[k] as int].operation,
            ).contains(q[k + 1]) by {
                assert(q[k] == p[k] && q[k + 1] == p[k + 1]);
            }
        }
        assert(reaches(nodes, root, c));
        assert(operands(nodes[p[n - 2] as int].operation).contains(p[n - 1]));
        assert(read_from_above(nodes, root, h + 1, h));
    }
    if read_from_above(nodes, root, h + 1, h) {
        let c = choose|c: int|
            h + 1 <= c <= root && #[trigger] reaches(nodes, root, c) && operands(
                nodes[c].operation,
            ).contains(h as usize);
        let p = choose|p: Seq<TensorRef>| #[trigger] is_path(nodes, p) && p[0] == root && p.last() == c;
        let q = p.push(h as usize);
        lemma_path_descends(nodes, p, p.len() - 1);
        assert(is_path(nodes, q)) by {
            assert forall|k: int| 0 <= k < q.len() implies #[trigger] q[k] < nodes.len() by {
                if k < p.len() {
                    assert(q[k] == p[k]);
                }
            }
            assert forall|k: int| 0 <= k < q.len() - 1 implies operands(
                nodes[#[trigger] q[k] as int].operation,
            ).contains(q[k + 1]) by {
                if k < p.len() - 1 {
                    assert(q[k] == p[k] && q[k + 1] == p[k + 1]);
                } else {
                    assert(q[k] == c && q[k + 1] == h);
                }
            }
        }
        assert(reaches(nodes, root, h));
    }
}

impl Graph {
    /// The gradient contributions of tensor `h` to its operands (see [`routes_of`]);
    /// `InvalidRef` for a handle never issued.
    pub fn grad_routes(&self, h: TensorRef) -> (r: Result<Vec<Route>, EngineError>)
        requires
            self.wf(),
        ensures
            r.is_ok() <==> h < self@.len(),
            r matches Err(e) ==> e == EngineError::InvalidRef,
            r matches Ok(routes) ==> routes@ == routes_of(self@, h as int),
    {
        let node = match self.node(h) {
            Ok(n) => n,
            Err(e) => {
                return Err(e);
            },
        };
        proof {
            assert(node_wf(self@, h as int));
        }
        let mut routes: Vec<Route> = Vec::new();
        match &node.operation {
            None => {},
            Some(Operation::Add(v)) => {
                let mut k: usize = 0;
                while k < v.len()
                    invariant
                        k <= v@.len(),
                        routes@.len() == k,
                        forall|j: int|
                            0 <= j < k ==> #[trigger] routes@[j] == (Route {
                                target: v@[j],
                                rule: GradRule::Pass,
                            }),
                    decreases v@.len() - k,
                {
                    routes.push(Route { target: v[k], rule: GradRule::Pass });
                    k = k + 1;
                }
            },
            Some(Operation::Sub(l, r)) => {
                routes.push(Route { target: *l, rule: GradRule::Pass });
                routes.push(Route { target: *r, rule: GradRule::Negate });
            },
            Some(Operation::Mul(l, r)) => {
                routes.push(Route { target: *l, rule: GradRule::ScaleByDataOf(*r) });
                routes.push(Route { target: *r, rule: GradRule::ScaleByDataOf(*l) });
            },
            Some(Operation::Pow(x)) => {
                routes.push(Route { target: *x, rule: GradRule::PowRule });
            },
            Some(Operation::Sum(x)) => {
                routes.push(Route { target: *x, rule: GradRule::Broadcast });
            },
            Some(Operation::Concat(v)) => {
                let mut start: usize = 0;
                let mut k: usize = 0;
                while k < v.len()
                    invariant
                        self.wf(),
                        h < self@.len(),
                        node == self@[h as int],
                        node.operation == Some(Operation::Concat(*v)),
                        node_wf(self@, h as int),
                        k <= v@.len(),
                        routes@.len() == k,
                        start as int == total_len(self@, v@.take(k as int)),
                        forall|j: int|
                            0 <= j < k ==> #[trigger] routes@[j] == (Route {
                                target: v@[j],
                                rule: GradRule::Slice {
                                    start: total_len(self@, v@.take(j)) as usize,
                                    len: self@[v@[j] as int].len,
                                },
                            }),
                    decreases v@.len() - k,
                {
                    let t = v[k];
                    proof {
                        assert(operands(node.operation)[k as int] == t);
                        assert(t < h);
                    }
                    let len = self.len_of(t);
                    proof {
                        lemma_total_len_prefix(self@, v@, k + 1);
                        assert(v@.take(k + 1).drop_last() =~= v@.take(k as int));
                        assert(v@.take(k + 1).last() == t);
                    }
                    routes.push(Route { target: t, rule: GradRule::Slice { start, len } });
                    start = start + len;
                    k = k + 1;
                }
            },
            Some(Operation::ReLU(x)) => {
                routes.push(Route { target: *x, rule: GradRule::ReluGate });
            },
        }
        proof {
            assert(routes@ =~= routes_of(self@, h as int));
        }
        Ok(routes)
    }

    /// The buffer length of tensor `h`.
    pub fn len_of(&self, h: TensorRef) -> (r: usize)
        requires
            h < self@.len(),
        ensures
            r == self@[h as int].len,
    {
        match self.node(h) {
            Ok(n) => n.len,
            Err(_) => 0,
        }
    }

    /// The operands of tensor `h`, in order.
    pub fn operand_list(&self, h: TensorRef) -> (r: Vec<TensorRef>)
        requires
            h < self@.len(),
        ensures
            r@ == operands(self@[h as int].operation),
    {
        match self.node(h) {
            Ok(n) => match &n.operation {
                None => Vec::new(),
                Some(Operation::Add(v)) => v.clone(),
                Some(Operation::Sub(l, r)) => vec![*l, *r],
                Some(Operation::Mul(l, r)) => vec![*l, *r],
                Some(Operation::Pow(x)) => vec![*x],
                Some(Operation::Sum(x)) => vec![*x],
                Some(Operation::Concat(v)) => v.clone(),
                Some(Operation::ReLU(x)) => vec![*x],
            },
            Err(_) => Vec::new(),
        }
    }

    /// The tensors that the gradient of `root` reaches, each once, from the last created to the
    /// first. Every operand is created before the tensors that read it, so when a tensor comes up
    /// in this order, every tensor that reads it has already passed its gradient on: its own
    /// gradient is complete. `InvalidRef` for a handle never issued.
    pub fn backward_order(&self, root: TensorRef) -> (r: Result<Vec<TensorRef>, EngineError>)
        requires
            self.wf(),
        ensures
            r.is_ok() <==> root < self@.len(),
            r matches Err(e) ==> e == EngineError::InvalidRef,
            r matches Ok(order) ==> is_backward_order(self@, root as int, order@),
    {
        let n = self.len();
        if root >= n {
            return Err(EngineError::InvalidRef);
        }
        let mut marked: Vec<bool> = Vec::new();
        let mut j: usize = 0;
        while j < n
            invariant
                j <= n,
                marked@.len() == j,
                forall|k: int| 0 <= k < j ==> !marked@[k],
            decreases n - j,
        {
            marked.push(false);
            j = j + 1;
        }
        marked.set(root, true);
        let mut order: Vec<TensorRef> = Vec::new();
        let mut i: usize = root + 1;
        while i > 0
            invariant
                self.wf(),
                n == self@.len(),
                root < n,
                i <= root + 1,
                marked@.len() == n,
                forall|j: int| i <= j <= root ==> marked@[j] == reaches(self@, root as int, j),
                forall|j: int|
                    0 <= j < i ==> (marked@[j] <==> (j == root || read_from_above(
                        self@,
                        root as int,
                        i as int,
                        j,
                    ))),
                forall|a: int, b: int| 0 <= a < b < order@.len() ==> order@[a] > order@[b],
                forall|k: int| 0 <= k < order@.len() ==> i <= #[trigger] order@[k] <= root,
                forall|j: int| i <= j <= root ==> (order@.contains(j as usize) <==> marked@[j]),
            decreases i,
        {
            i = i - 1;
            let ghost before = marked@;
            proof {
                assert(node_wf(self@, i as int));
                if i < root {
                    lemma_reaches_below_root(self@, root as int, i as int);
                } else {
                    lemma_reaches_self(self@, root);
                }
                assert(marked@[i as int] == reaches(self@, root as int, i as int));
            }
            if marked[i] {
                let ghost order_before = order@;
                order.push(i);
                proof {
                    assert forall|j: int| i + 1 <= j <= root implies (order@.contains(j as usize)
                        <==> marked@[j]) by {
                        if order_before.contains(j as usize) {
                            let k = choose|k: int|
                                0 <= k < order_before.len() && order_before[k] == j as usize;
                            assert(order@[k] == j as usize);
                        }
                        if order@.contains(j as usize) {
                            let k = choose|k: int| 0 <= k < order@.len() && order@[k] == j as usize;
                            if k < order_before.len() {
                                assert(order_before[k] == j as usize);
                            }
                        }
                    }
                    assert(order@[order@.len() - 1] == i);
                }
                let ops = self.operand_list(i);
                let mut t: usize = 0;
                while t < ops.len()
                    invariant
                        self.wf(),
                        n == self@.len(),
                        i < n,
                        ops@ == operands(self@[i as int].operation),
                        node_wf(self@, i as int),
                        t <= ops@.len(),
                        marked@.len() == n,
                        before.len() == n,
                        forall|j: int|
                            i <= j < n ==> #[trigger] marked@[j] == before[j],
                        forall|j: int|
                            0 <= j < i ==> (#[trigger] marked@[j] <==> (before[j] || ops@.take(
                                t as int,
                            ).contains(j as usize))),
                    decreases ops@.len() - t,
                {
                    let o = ops[t];
                    assert(o < i);
                    let ghost prev = marked@;
                    marked.set(o, true);
                    proof {
                        assert(ops@.take(t + 1)[t as int] == o);
                        assert(ops@.take(t + 1) =~= ops@.take(t as int).push(o));
                        assert forall|j: int| 0 <= j < i implies (#[trigger] marked@[j] <==> (
                        before[j] || ops@.take(t + 1).contains(j as usize))) by {
                            if ops@.take(t as int).contains(j as usize) {
                                let k = choose|k: int|
                                    0 <= k < t && #[trigger] ops@.take(t as int)[k] == j as usize;
                                assert(ops@.take(t + 1)[k] == j as usize);
                            }
                            if ops@.take(t + 1).contains(j as usize) && j != o {
                                let k = choose|k: int|
                                    0 <= k < t + 1 && #[trigger] ops@.take(t + 1)[k] == j as usize;
                                assert(k < t);
                                assert(ops@.take(t as int)[k] == j as usize);
                            }
                        }
                    }
                    t = t + 1;
                }
                proof {
                    assert(ops@.take(t as int) =~= ops@);
                }
            }
            proof {
                let m = marked@;
                assert forall|j: int| 0 <= j < i implies (m[j] <==> (j == root || read_from_above(
                    self@,
                    root as int,
                    i as int,
                    j,
                ))) by {
                    if read_from_above(self@, root as int, i + 1, j) {
                        let c = choose|c: int|
                            i + 1 <= c <= root && #[trigger] reaches(self@, root as int, c)
                                && operands(self@[c].operation).contains(j as usize);
                        assert(read_from_above(self@, root as int, i as int, j));
                    }
                    if read_from_above(self@, root as int, i as int, j) {
                        let c = choose|c: int|
                            i <= c <= root && #[trigger] reaches(self@, root as int, c)
                                && operands(self@[c].operation).contains(j as usize);
                        if c > i {
                            assert(read_from_above(self@, root as int, i + 1, j));
                        } else {
                            assert(before[i as int]);
                        }
                    }
                    if before[i as int] && operands(self@[i as int].operation).contains(
                        j as usize,
                    ) {
                        assert(reaches(self@, root as int, i as int));
                        assert(read_from_above(self@, root as int, i as int, j));
                    }
                }
            }
        }
        proof {
            assert forall|h: int| 0 <= h <= root implies (order@.contains(h as usize) <==> reaches(
                self@,
                root as int,
                h,
            )) by {
                assert(marked@[h] == reaches(self@, root as int, h));
            }
        }
        Ok(order)
    }
}

} // verus!
