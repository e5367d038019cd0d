use vstd::prelude::*;
use crate::activation::ActivationFunction;
use crate::backward::{is_backward_order, reaches, routes_of};
use crate::graph::{
    activation_inplace_outcome, appended, binary_outcome, concat_inplace_outcome,
    dot_inplace_outcome, elementwise_inplace_outcome, sum_inplace_outcome, Graph,
};
use crate::rules::{
    accumulate, apply_update, contribution, contribution_rel, copy_of, fits, forward, forward_rel,
    total_arith, update_rel, views, elementwise_rel, map_rel, total_rel, gathered, fits_below,
    Arith, slot_view, accumulated, filled, gather, lemma_gathered_len, lemma_same_len, map_with, total, zip_with,
};
use crate::tensor::{copy_operation, operands, product, same_operation};
use crate::tensor::{node_wf, EngineError, Node, Operation, TensorRef};

verus! {

/// A snapshot of one tensor: its shape, values, gradient and provenance.
#[derive(Debug, Clone, PartialEq)]
pub struct Tensor<T> {
    pub shape: Vec<usize>,
    pub data: Vec<T>,
    pub grad: Option<Vec<T>>,
    pub operation: Option<Operation>,
}

impl<T> Tensor<T> {
    /// A tensor of its own, outside any context: no gradient and no operation.
    pub fn new(shape: Vec<usize>, data: Vec<T>) -> (r: Tensor<T>)
        ensures
            r.shape@ == shape@,
            r.data@ == data@,
            r.grad is None,
            r.operation is None,
    {
        Tensor { shape, data, grad: None, operation: None }
    }
}

/// The engine: the graph of every tensor produced, with their values and gradients. It is
/// generic over the number type `T`; `arith` performs the scalar operations on it and `zero`
/// is its zero.
pub struct TensorContext<T, F> {
    graph: Graph,
    data: Vec<Vec<T>>,
    grads: Vec<Option<Vec<T>>>,
    exponents: Vec<T>,
    zero: T,
    arith: F,
}

/// The contents of each gradient slot.
pub open spec fn grad_views<T>(grads: Seq<Option<Vec<T>>>) -> Seq<Option<Seq<T>>> {
    grads.map_values(|g: Option<Vec<T>>| slot_view(g))
}

/// Whether every gradient that has landed has the length of its tensor.
pub open spec fn grads_fit<T>(nodes: Seq<Node>, grads: Seq<Option<Seq<T>>>) -> bool {
    &&& grads.len() == nodes.len()
    &&& forall|i: int|
        0 <= i < grads.len() ==> (#[trigger] grads[i] matches Some(g) ==> g.len() == nodes[i].len)
}

/// The gradient of tensor `h` in the state `gs`, or zeros where none has landed.
pub open spec fn grad_or_zeros<T>(gs: Seq<Option<Seq<T>>>, h: int, len: nat, zero: T) -> Seq<T> {
    match gs[h] {
        Some(g) => g,
        None => Seq::new(len, |i: int| zero),
    }
}

/// Whether `after` is `before` once route `k` of tensor `h` has added its contribution, formed
/// from the gradient of `h` in `before`, to its target.
pub open spec fn route_step<T, F: Fn(Arith, T, T) -> T>(
    arith: F,
    nodes: Seq<Node>,
    vals: Seq<Seq<T>>,
    exps: Seq<T>,
    zero: T,
    h: int,
    k: int,
    before: Seq<Option<Seq<T>>>,
    after: Seq<Option<Seq<T>>>,
) -> bool {
    let route = routes_of(nodes, h)[k];
    let t = route.target as int;
    &&& after.len() == before.len()
    &&& forall|i: int| 0 <= i < before.len() && i != t ==> #[trigger] after[i] == before[i]
    &&& exists|c: Seq<T>|
        #[trigger] contribution_rel(
            arith,
            route,
            vals,
            grad_or_zeros(before, h, nodes[h].len as nat, zero),
            exps[h],
            zero,
            c,
        ) && accumulated(arith, before[t], c, after[t])
}

/// Whether `after` is `before` once every route of tensor `h` has been applied, in order.
pub open spec fn node_step<T, F: Fn(Arith, T, T) -> T>(
    arith: F,
    nodes: Seq<Node>,
    vals: Seq<Seq<T>>,
    exps: Seq<T>,
    zero: T,
    h: int,
    before: Seq<Option<Seq<T>>>,
    after: Seq<Option<Seq<T>>>,
) -> bool {
    exists|states: Seq<Seq<Option<Seq<T>>>>|
        #[trigger] route_chain(arith, nodes, vals, exps, zero, h, states) && states[0] == before
            && states.last() == after
}

/// Whether `states` is a run of the routes of tensor `h`, one state per route and one more.
pub open spec fn route_chain<T, F: Fn(Arith, T, T) -> T>(
    arith: F,
    nodes: Seq<Node>,
    vals: Seq<Seq<T>>,
    exps: Seq<T>,
    zero: T,
    h: int,
    states: Seq<Seq<Option<Seq<T>>>>,
) -> bool {
    &&& states.len() == routes_of(nodes, h).len() + 1
    &&& forall|k: int|
        0 <= k < routes_of(nodes, h).len() ==> #[trigger] route_step(
            arith,
            nodes,
            vals,
            exps,
            zero,
            h,
            k,
            states[k],
            states[k + 1],
        )
}

/// Whether `states` is a run of the backward pass over `order`: each tensor in turn passes its
/// gradient on to its operands.
pub open spec fn backward_chain<T, F: Fn(Arith, T, T) -> T>(
    arith: F,
    nodes: Seq<Node>,
    vals: Seq<Seq<T>>,
    exps: Seq<T>,
    zero: T,
    order: Seq<TensorRef>,
    states: Seq<Seq<Option<Seq<T>>>>,
) -> bool {
    &&& states.len() == order.len() + 1
    &&& forall|j: int|
        0 <= j < order.len() ==> #[trigger] node_step(
            arith,
            nodes,
            vals,
            exps,
            zero,
            order[j] as int,
            states[j],
            states[j + 1],
        )
}

/// The gradients with the one of `root` set to zeros where none had landed.
pub open spec fn seeded<T>(gs: Seq<Option<Seq<T>>>, root: int, len: nat, zero: T) -> Seq<
    Option<Seq<T>>,
> {
    gs.update(root, Some(grad_or_zeros(gs, root, len, zero)))
}

impl<T: Copy, F: Fn(Arith, T, T) -> T + Copy> TensorContext<T, F> {
    /// The tensors of the graph.
    pub closed spec fn nodes(&self) -> Seq<Node> {
        self.graph@
    }

    /// The values of each tensor.
    pub closed spec fn values(&self) -> Seq<Seq<T>> {
        views(self.data@)
    }

    /// The gradient of each tensor, where one has landed.
    pub closed spec fn gradients(&self) -> Seq<Option<Seq<T>>> {
        grad_views(self.grads@)
    }

    /// The exponent of each tensor that is a power (zero for the others).
    pub closed spec fn exponents(&self) -> Seq<T> {
        self.exponents@
    }

    /// The zero of the number type.
    pub closed spec fn zero(&self) -> T {
        self.zero
    }

    /// The scalar arithmetic.
    pub closed spec fn arith(&self) -> F {
        self.arith
    }

    /// Whether `other` holds the same tensors, values and gradients as `self`.
    pub open spec fn same_contents(&self, other: &Self) -> bool {
        &&& self.nodes() == other.nodes()
        &&& self.values() == other.values()
        &&& self.gradients() == other.gradients()
        &&& self.exponents() == other.exponents()
    }

    /// Whether `grads` are the gradients that the backward pass from `root` leaves: there is
    /// a run over the backward order of `root` (see [`backward_chain`]) that starts from the
    /// current gradients, with the one of `root` seeded, and ends at `grads`.
    pub open spec fn backward_result(&self, root: TensorRef, grads: Seq<Option<Seq<T>>>) -> bool {
        exists|order: Seq<TensorRef>, states: Seq<Seq<Option<Seq<T>>>>|
            {
                &&& is_backward_order(self.nodes(), root as int, order)
                &&& #[trigger] backward_chain(
                    self.arith(),
                    self.nodes(),
                    self.values(),
                    self.exponents(),
                    self.zero(),
                    order,
                    states,
                )
                &&& states[0] == seeded(
                    self.gradients(),
                    root as int,
                    self.nodes()[root as int].len as nat,
                    self.zero(),
                )
                &&& states.last() == grads
            }
    }

    pub closed spec fn graph_wf(&self) -> bool {
        self.graph.wf()
    }

    /// The invariant: a well-formed graph, one value buffer of the right length per tensor, one
    /// gradient slot and one exponent per tensor, and arithmetic that accepts every input.
    pub open spec fn wf(&self) -> bool {
        &&& self.graph_wf()
        &&& fits(self.nodes(), self.values())
        &&& grads_fit(self.nodes(), self.gradients())
        &&& self.exponents().len() == self.nodes().len()
        &&& total_arith(self.arith())
    }

    /// Every tensor of a well-formed context satisfies the graph's invariant.
    pub proof fn lemma_nodes_wf(&self)
        requires
            self.wf(),
        ensures
            forall|i: int| 0 <= i < self.nodes().len() ==> #[trigger] node_wf(self.nodes(), i),
            fits(self.nodes(), self.values()),
    {
        assert(self.graph.wf());
    }

    /// An empty context.
    pub fn new(capacity: usize, zero: T, arith: F) -> (r: Self)
        requires
            total_arith(arith),
        ensures
            r.wf(),
            r.nodes().len() == 0,
            r.zero() == zero,
            r.arith() == arith,
    {
        let r = TensorContext {
            graph: Graph::new(),
            data: Vec::with_capacity(capacity),
            grads: Vec::with_capacity(capacity),
            exponents: Vec::with_capacity(capacity),
            zero,
            arith,
        };
        proof {
            assert(r.values() =~= Seq::<Seq<T>>::empty());
            assert(r.gradients() =~= Seq::<Option<Seq<T>>>::empty());
        }
        r
    }

    /// The number of tensors issued so far.
    pub fn len(&self) -> (r: usize)
        ensures
            r == self.nodes().len(),
    {
        self.graph.len()
    }

    /// The graph of the tensors issued so far.
    pub fn graph(&self) -> (r: &Graph)
        ensures
            r@ == self.nodes(),
            self.wf() ==> r.wf(),
    {
        &self.graph
    }

    /// Appends the buffers of a tensor that the graph has just appended.
    fn push_values(&mut self, values: Vec<T>, exponent: T)
        requires
            old(self).graph_wf(),
            fits(old(self).nodes().drop_last(), old(self).values()),
            grads_fit(old(self).nodes().drop_last(), old(self).gradients()),
            old(self).exponents().len() + 1 == old(self).nodes().len(),
            values@.len() == old(self).nodes().last().len,
            total_arith(old(self).arith()),
        ensures
            final(self).wf(),
            final(self).nodes() == old(self).nodes(),
            final(self).values() == old(self).values().push(values@),
            final(self).gradients() == old(self).gradients().push(None),
            final(self).exponents() == old(self).exponents().push(exponent),
            final(self).zero() == old(self).zero(),
            final(self).arith() == old(self).arith(),
    {
        let ghost n = self.nodes();
        self.data.push(values);
        self.grads.push(None);
        self.exponents.push(exponent);
        proof {
            assert(self.values() =~= old(self).values().push(values@));
            assert(self.gradients() =~= old(self).gradients().push(None));
            assert forall|i: int| 0 <= i < self.values().len() implies #[trigger] self.values()[i].len()
                == n[i].len by {
                if i < n.len() - 1 {
                    assert(self.values()[i] == old(self).values()[i]);
                    assert(n.drop_last()[i] == n[i]);
                }
            }
            assert forall|i: int| 0 <= i < self.gradients().len() implies (
            #[trigger] self.gradients()[i] matches Some(g) ==> g.len() == n[i].len) by {
                if i < n.len() - 1 {
                    assert(self.gradients()[i] == old(self).gradients()[i]);
                    assert(n.drop_last()[i] == n[i]);
                }
            }
        }
    }

    /// Appends a leaf tensor holding `data`; `ShapeMismatch` unless its length is the product
    /// of `shape`.
    pub fn new_tensor(&mut self, shape: Vec<usize>, data: Vec<T>) -> (r: Result<
        TensorRef,
        EngineError,
    >)
        requires
            old(self).wf(),
            old(self).nodes().len() < usize::MAX,
        ensures
            final(self).wf(),
            r.is_ok() <==> data@.len() == crate::tensor::product(shape@),
            r matches Err(e) ==> e == EngineError::ShapeMismatch && final(self).same_contents(old(self)),
            r matches Ok(h) ==> {
                &&& h == old(self).nodes().len()
                &&& appended(old(self).nodes(), final(self).nodes())
                &&& final(self).nodes()[h as int].shape@ == shape@
                &&& final(self).nodes()[h as int].operation is None
                &&& final(self).values() == old(self).values().push(data@)
                &&& final(self).gradients() == old(self).gradients().push(None)
            },
            final(self).zero() == old(self).zero(),
            final(self).arith() == old(self).arith(),
    {
        let h = match self.graph.new_tensor(shape, data.len()) {
            Ok(h) => h,
            Err(e) => {
                return Err(e);
            },
        };
        let z = self.zero;
        proof {
            assert(self.nodes().drop_last() == old(self).nodes());
        }
        self.push_values(data, z);
        Ok(h)
    }

    /// Computes the values of tensor `h`, which the graph has just appended, and stores them.
    fn finish_derived(&mut self, h: TensorRef, exponent: T) -> (r: TensorRef)
        requires
            old(self).graph_wf(),
            h + 1 == old(self).nodes().len(),
            old(self).nodes()[h as int].operation is Some,
            fits(old(self).nodes().drop_last(), old(self).values()),
            grads_fit(old(self).nodes().drop_last(), old(self).gradients()),
            old(self).exponents().len() == h,
            total_arith(old(self).arith()),
        ensures
            final(self).wf(),
            r == h,
            final(self).nodes() == old(self).nodes(),
            final(self).values() == old(self).values().push(final(self).values()[h as int]),
            forward_rel(
                old(self).arith(),
                old(self).nodes(),
                old(self).values(),
                h as int,
                exponent,
                old(self).zero(),
                final(self).values()[h as int],
            ),
            final(self).gradients() == old(self).gradients().push(None),
            final(self).exponents() == old(self).exponents().push(exponent),
            final(self).zero() == old(self).zero(),
            final(self).arith() == old(self).arith(),
    {
        proof {
            let n = self.nodes();
            assert forall|i: int| 0 <= i < h implies #[trigger] self.values()[i].len() == n[i].len by {
                assert(n.drop_last()[i] == n[i]);
            }
        }
        let v = match forward(&self.graph, &self.data, h, exponent, self.zero, self.arith) {
            Ok(v) => v,
            Err(_) => Vec::new(),
        };
        self.push_values(v, exponent);
        h
    }

    /// Appends `l + r`, elementwise; the operands must have equal shapes.
    pub fn add(&mut self, l: TensorRef, r: TensorRef) -> (res: Result<TensorRef, EngineError>)
        requires
            old(self).wf(),
            old(self).nodes().len() < usize::MAX,
        ensures
            final(self).wf(),
            final(self).zero() == old(self).zero(),
            final(self).arith() == old(self).arith(),
            res.is_ok() <==> binary_outcome(old(self).nodes(), l, r) is Ok,
            res matches Err(e) ==> binary_outcome(old(self).nodes(), l, r) == Err::<(), EngineError>(
                e,
            ) && final(self).same_contents(old(self)),
            res matches Ok(h) ==> {
                &&& h == old(self).nodes().len()
                &&& appended(old(self).nodes(), final(self).nodes())
                &&& final(self).nodes()[h as int].shape@ == old(self).nodes()[l as int].shape@
                &&& final(self).nodes()[h as int].operation matches Some(Operation::Add(_))
                &&& operands(final(self).nodes()[h as int].operation) == seq![l, r]
                &&& final(self).values() == old(self).values().push(final(self).values()[h as int])
                &&& elementwise_rel(
                    old(self).arith(),
                    Arith::Add,
                    old(self).values()[l as int],
                    old(self).values()[r as int],
                    final(self).values()[h as int],
                )
                &&& final(self).gradients() == old(self).gradients().push(None)
            },
    {
        let h = match self.graph.add(l, r) {
            Ok(h) => h,
            Err(e) => {
                return Err(e);
            },
        };
        let z = self.zero;
        Ok(self.finish_derived(h, z))
    }

    /// Appends `l - r`, elementwise; the operands must have equal shapes.
    pub fn sub(&mut self, l: TensorRef, r: TensorRef) -> (res: Result<TensorRef, EngineError>)
        requires
            old(self).wf(),
            old(self).nodes().len() < usize::MAX,
        ensures
            final(self).wf(),
            final(self).zero() == old(self).zero(),
            final(self).arith() == old(self).arith(),
            res.is_ok() <==> binary_outcome(old(self).nodes(), l, r) is Ok,
            res matches Err(e) ==> binary_outcome(old(self).nodes(), l, r) == Err::<(), EngineError>(
                e,
            ) && final(self).same_contents(old(self)),
            res matches Ok(h) ==> {
                &&& h == old(self).nodes().len()
                &&& appended(old(self).nodes(), final(self).nodes())
                &&& final(self).nodes()[h as int].shape@ == old(self).nodes()[l as int].shape@
                &&& final(self).nodes()[h as int].operation == Some(Operation::Sub(l, r))
                &&& final(self).values() == old(self).values().push(final(self).values()[h as int])
                &&& elementwise_rel(
                    old(self).arith(),
                    Arith::Sub,
                    old(self).values()[l as int],
                    old(self).values()[r as int],
                    final(self).values()[h as int],
                )
                &&& final(self).gradients() == old(self).gradients().push(None)
            },
    {
        let h = match self.graph.sub(l, r) {
            Ok(h) => h,
            Err(e) => {
                return Err(e);
            },
        };
        let z = self.zero;
        Ok(self.finish_derived(h, z))
    }

    /// Appends `l * r`, elementwise; the operands must have equal shapes.
    pub fn mul(&mut self, l: TensorRef, r: TensorRef) -> (res: Result<TensorRef, EngineError>)
        requires
            old(self).wf(),
            old(self).nodes().len() < usize::MAX,
        ensures
            final(self).wf(),
            final(self).zero() == old(self).zero(),
            final(self).arith() == old(self).arith(),
            res.is_ok() <==> binary_outcome(old(self).nodes(), l, r) is Ok,
            res matches Err(e) ==> binary_outcome(old(self).nodes(), l, r) == Err::<(), EngineError>(
                e,
            ) && final(self).same_contents(old(self)),
            res matches Ok(h) ==> {
                &&& h == old(self).nodes().len()
                &&& appended(old(self).nodes(), final(self).nodes())
                &&& final(self).nodes()[h as int].shape@ == old(self).nodes()[l as int].shape@
                &&& final(self).nodes()[h as int].operation == Some(Operation::Mul(l, r))
                &&& final(self).values() == old(self).values().push(final(self).values()[h as int])
                &&& elementwise_rel(
                    old(self).arith(),
                    Arith::Mul,
                    old(self).values()[l as int],
                    old(self).values()[r as int],
                    final(self).values()[h as int],
                )
                &&& final(self).gradients() == old(self).gradients().push(None)
            },
    {
        let h = match self.graph.mul(l, r) {
            Ok(h) => h,
            Err(e) => {
                return Err(e);
            },
        };
        let z = self.zero;
        Ok(self.finish_derived(h, z))
    }

    /// Appends `x` raised elementwise to the power `exponent`.
    pub fn pow(&mut self, x: TensorRef, exponent: T) -> (res: Result<TensorRef, EngineError>)
        requires
            old(self).wf(),
            old(self).nodes().len() < usize::MAX,
        ensures
            final(self).wf(),
            final(self).zero() == old(self).zero(),
            final(self).arith() == old(self).arith(),
            res.is_ok() <==> x < old(self).nodes().len(),
            res matches Err(e) ==> e == EngineError::InvalidRef && final(self).same_contents(
                old(self),
            ),
            res matches Ok(h) ==> {
                &&& h == old(self).nodes().len()
                &&& appended(old(self).nodes(), final(self).nodes())
                &&& final(self).nodes()[h as int].shape@ == old(self).nodes()[x as int].shape@
                &&& final(self).nodes()[h as int].operation == Some(Operation::Pow(x))
                &&& final(self).values() == old(self).values().push(final(self).values()[h as int])
                &&& map_rel(
                    old(self).arith(),
                    Arith::Pow,
                    old(self).values()[x as int],
                    exponent,
                    final(self).values()[h as int],
                )
                &&& final(self).gradients() == old(self).gradients().push(None)
                &&& final(self).exponents()[h as int] == exponent
            },
    {
        let h = match self.graph.pow(x) {
            Ok(h) => h,
            Err(e) => {
                return Err(e);
            },
        };
        Ok(self.finish_derived(h, exponent))
    }

    /// Appends the one-element total of `x`, added from left to right starting at zero.
    pub fn sum(&mut self, x: TensorRef) -> (res: Result<TensorRef, EngineError>)
        requires
            old(self).wf(),
            old(self).nodes().len() < usize::MAX,
        ensures
            final(self).wf(),
            final(self).zero() == old(self).zero(),
            final(self).arith() == old(self).arith(),
            res.is_ok() <==> x < old(self).nodes().len(),
            res matches Err(e) ==> e == EngineError::InvalidRef && final(self).same_contents(
                old(self),
            ),
            res matches Ok(h) ==> {
                &&& h == old(self).nodes().len()
                &&& appended(old(self).nodes(), final(self).nodes())
                &&& final(self).nodes()[h as int].shape@ == seq![1usize]
                &&& final(self).nodes()[h as int].operation == Some(Operation::Sum(x))
                &&& final(self).values() == old(self).values().push(final(self).values()[h as int])
                &&& final(self).values()[h as int].len() == 1
                &&& total_rel(
                    old(self).arith(),
                    old(self).zero(),
                    old(self).values()[x as int],
                    final(self).values()[h as int][0],
                )
                &&& final(self).gradients() == old(self).gradients().push(None)
            },
    {
        let h = match self.graph.sum(x) {
            Ok(h) => h,
            Err(e) => {
                return Err(e);
            },
        };
        let z = self.zero;
        Ok(self.finish_derived(h, z))
    }

    /// Appends the concatenation of `refs`, in order.
    pub fn concat(&mut self, refs: Vec<TensorRef>) -> (res: Result<TensorRef, EngineError>)
        requires
            old(self).wf(),
            old(self).nodes().len() < usize::MAX,
        ensures
            final(self).wf(),
            final(self).zero() == old(self).zero(),
            final(self).arith() == old(self).arith(),
            res.is_ok() <==> crate::graph::all_valid(old(self).nodes(), refs@)
                && crate::tensor::total_len(old(self).nodes(), refs@) <= usize::MAX,
            res matches Err(e) ==> final(self).same_contents(old(self)) && (if crate::graph::all_valid(
                old(self).nodes(),
                refs@,
            ) {
                e == EngineError::ShapeMismatch
            } else {
                e == EngineError::InvalidRef
            }),
            res matches Ok(h) ==> {
                &&& h == old(self).nodes().len()
                &&& appended(old(self).nodes(), final(self).nodes())
                &&& final(self).nodes()[h as int].shape@ == seq![
                    crate::tensor::total_len(old(self).nodes(), refs@) as usize,
                ]
                &&& final(self).nodes()[h as int].operation matches Some(Operation::Concat(_))
                &&& operands(final(self).nodes()[h as int].operation) == refs@
                &&& final(self).values() == old(self).values().push(final(self).values()[h as int])
                &&& final(self).values()[h as int] == gathered(old(self).values(), refs@)
                &&& final(self).gradients() == old(self).gradients().push(None)
            },
    {
        let h = match self.graph.concat(refs) {
            Ok(h) => h,
            Err(e) => {
                return Err(e);
            },
        };
        let z = self.zero;
        Ok(self.finish_derived(h, z))
    }

    /// Appends the activation `kind` of `x`; only `ReLU` has rules, any other kind is
    /// `UnsupportedOperation`.
    pub fn apply(&mut self, kind: ActivationFunction, x: TensorRef) -> (res: Result<
        TensorRef,
        EngineError,
    >)
        requires
            old(self).wf(),
            old(self).nodes().len() < usize::MAX,
        ensures
            final(self).wf(),
            final(self).zero() == old(self).zero(),
            final(self).arith() == old(self).arith(),
            res.is_ok() <==> x < old(self).nodes().len() && kind == ActivationFunction::ReLU,
            res matches Err(e) ==> final(self).same_contents(old(self)) && (if x >= old(
                self,
            ).nodes().len() {
                e == EngineError::InvalidRef
            } else {
                e == EngineError::UnsupportedOperation
            }),
            res matches Ok(h) ==> {
                &&& h == old(self).nodes().len()
                &&& appended(old(self).nodes(), final(self).nodes())
                &&& final(self).nodes()[h as int].shape@ == old(self).nodes()[x as int].shape@
                &&& final(self).nodes()[h as int].operation == Some(Operation::ReLU(x))
                &&& final(self).values() == old(self).values().push(final(self).values()[h as int])
                &&& map_rel(
                    old(self).arith(),
                    Arith::Relu,
                    old(self).values()[x as int],
                    old(self).zero(),
                    final(self).values()[h as int],
                )
                &&& final(self).gradients() == old(self).gradients().push(None)
            },
    {
        let h = match self.graph.apply(kind, x) {
            Ok(h) => h,
            Err(e) => {
                return Err(e);
            },
        };
        let z = self.zero;
        Ok(self.finish_derived(h, z))
    }

    /// Overwrites the values of tensor `out`.
    fn store_values(&mut self, out: TensorRef, v: Vec<T>)
        requires
            old(self).wf(),
            out < old(self).nodes().len(),
            v@.len() == old(self).nodes()[out as int].len,
        ensures
            final(self).wf(),
            final(self).nodes() == old(self).nodes(),
            final(self).values() == old(self).values().update(out as int, v@),
            final(self).gradients() == old(self).gradients(),
            final(self).exponents() == old(self).exponents(),
            final(self).zero() == old(self).zero(),
            final(self).arith() == old(self).arith(),
    {
        self.data.set(out, v);
        proof {
            assert(self.values() =~= old(self).values().update(out as int, v@));
        }
    }

    /// Recomputes `out` in place as `l + r`, elementwise, from the operands' current values. The
    /// graph is left as it is.
    pub fn add_inplace(&mut self, l: TensorRef, r: TensorRef, out: TensorRef) -> (res: Result<
        (),
        EngineError,
    >)
        requires
            old(self).wf(),
        ensures
            final(self).wf(),
            final(self).zero() == old(self).zero(),
            final(self).arith() == old(self).arith(),
            res == elementwise_inplace_outcome(old(self).nodes(), l, r, out),
            res is Err ==> final(self).same_contents(old(self)),
            res is Ok ==> {
                &&& final(self).nodes() == old(self).nodes()
                &&& final(self).values() == old(self).values().update(
                    out as int,
                    final(self).values()[out as int],
                )
                &&& elementwise_rel(
                    old(self).arith(),
                    Arith::Add,
                    old(self).values()[l as int],
                    old(self).values()[r as int],
                    final(self).values()[out as int],
                )
                &&& final(self).gradients() == old(self).gradients()
                &&& final(self).exponents() == old(self).exponents()
            },
    {
        self.elementwise_inplace(l, r, out, Arith::Add)
    }

    /// Recomputes `out` in place as `l * r`, elementwise, from the operands' current values.
    pub fn mul_inplace(&mut self, l: TensorRef, r: TensorRef, out: TensorRef) -> (res: Result<
        (),
        EngineError,
    >)
        requires
            old(self).wf(),
        ensures
            final(self).wf(),
            final(self).zero() == old(self).zero(),
            final(self).arith() == old(self).arith(),
            res == elementwise_inplace_outcome(old(self).nodes(), l, r, out),
            res is Err ==> final(self).same_contents(old(self)),
            res is Ok ==> {
                &&& final(self).nodes() == old(self).nodes()
                &&& final(self).values() == old(self).values().update(
                    out as int,
                    final(self).values()[out as int],
                )
                &&& elementwise_rel(
                    old(self).arith(),
                    Arith::Mul,
                    old(self).values()[l as int],
                    old(self).values()[r as int],
                    final(self).values()[out as int],
                )
                &&& final(self).gradients() == old(self).gradients()
                &&& final(self).exponents() == old(self).exponents()
            },
    {
        self.elementwise_inplace(l, r, out, Arith::Mul)
    }

    /// Recomputes `out` in place as `l - r`, elementwise, from the operands' current values.
    pub fn sub_inplace(&mut self, l: TensorRef, r: TensorRef, out: TensorRef) -> (res: Result<
        (),
        EngineError,
    >)
        requires
            old(self).wf(),
        ensures
            final(self).wf(),
            final(self).zero() == old(self).zero(),
            final(self).arith() == old(self).arith(),
            res == elementwise_inplace_outcome(old(self).nodes(), l, r, out),
            res is Err ==> final(self).same_contents(old(self)),
            res is Ok ==> {
                &&& final(self).nodes() == old(self).nodes()
                &&& final(self).values() == old(self).values().update(
                    out as int,
                    final(self).values()[out as int],
                )
                &&& elementwise_rel(
                    old(self).arith(),
                    Arith::Sub,
                    old(self).values()[l as int],
                    old(self).values()[r as int],
                    final(self).values()[out as int],
                )
                &&& final(self).gradients() == old(self).gradients()
                &&& final(self).exponents() == old(self).exponents()
            },
    {
        self.elementwise_inplace(l, r, out, Arith::Sub)
    }

    fn elementwise_inplace(&mut self, l: TensorRef, r: TensorRef, out: TensorRef, op: Arith) -> (res:
        Result<(), EngineError>)
        requires
            old(self).wf(),
        ensures
            final(self).wf(),
            final(self).zero() == old(self).zero(),
            final(self).arith() == old(self).arith(),
            res == elementwise_inplace_outcome(old(self).nodes(), l, r, out),
            res is Err ==> final(self).same_contents(old(self)),
            res is Ok ==> {
                &&& final(self).nodes() == old(self).nodes()
                &&& final(self).values() == old(self).values().update(
                    out as int,
                    final(self).values()[out as int],
                )
                &&& elementwise_rel(
                    old(self).arith(),
                    op,
                    old(self).values()[l as int],
                    old(self).values()[r as int],
                    final(self).values()[out as int],
                )
                &&& final(self).gradients() == old(self).gradients()
                &&& final(self).exponents() == old(self).exponents()
            },
    {
        match self.graph.add_inplace(l, r, out) {
            Err(e) => {
                return Err(e);
            },
            Ok(()) => {},
        }
        proof {
            lemma_same_len(self.graph, l as int, out as int);
            lemma_same_len(self.graph, r as int, out as int);
            assert(self.values()[l as int] == self.data@[l as int]@);
            assert(self.values()[r as int] == self.data@[r as int]@);
        }
        let v = zip_with(&self.data[l], &self.data[r], op, self.arith);
        self.store_values(out, v);
        Ok(())
    }

    /// Recomputes the one-element tensor `out` in place as the total of `x`.
    pub fn sum_inplace(&mut self, x: TensorRef, out: TensorRef) -> (res: Result<(), EngineError>)
        requires
            old(self).wf(),
        ensures
            final(self).wf(),
            final(self).zero() == old(self).zero(),
            final(self).arith() == old(self).arith(),
            res == sum_inplace_outcome(old(self).nodes(), x, out),
            res is Err ==> final(self).same_contents(old(self)),
            res is Ok ==> {
                &&& final(self).nodes() == old(self).nodes()
                &&& final(self).values() == old(self).values().update(
                    out as int,
                    final(self).values()[out as int],
                )
                &&& final(self).values()[out as int].len() == 1
                &&& total_rel(
                    old(self).arith(),
                    old(self).zero(),
                    old(self).values()[x as int],
                    final(self).values()[out as int][0],
                )
                &&& final(self).gradients() == old(self).gradients()
                &&& final(self).exponents() == old(self).exponents()
            },
    {
        match self.graph.sum_inplace(x, out) {
            Err(e) => {
                return Err(e);
            },
            Ok(()) => {},
        }
        proof {
            assert(node_wf(self.graph@, out as int));
            let s1 = seq![1usize];
            assert(s1.drop_last() =~= Seq::<usize>::empty());
            assert(product(Seq::<usize>::empty()) == 1);
            assert(product(s1) == 1);
            assert(self.values()[x as int] == self.data@[x as int]@);
        }
        let t = total(&self.data[x], self.zero, self.arith);
        self.store_values(out, vec![t]);
        Ok(())
    }

    /// Recomputes `out` in place as the concatenation of `refs`.
    pub fn concat_inplace(&mut self, refs: Vec<TensorRef>, out: TensorRef) -> (res: Result<
        (),
        EngineError,
    >)
        requires
            old(self).wf(),
        ensures
            final(self).wf(),
            final(self).zero() == old(self).zero(),
            final(self).arith() == old(self).arith(),
            res == concat_inplace_outcome(old(self).nodes(), refs@, out),
            res is Err ==> final(self).same_contents(old(self)),
            res is Ok ==> {
                &&& final(self).nodes() == old(self).nodes()
                &&& final(self).values() == old(self).values().update(
                    out as int,
                    gathered(old(self).values(), refs@),
                )
                &&& final(self).gradients() == old(self).gradients()
                &&& final(self).exponents() == old(self).exponents()
            },
    {
        match self.graph.concat_inplace(&refs, out) {
            Err(e) => {
                return Err(e);
            },
            Ok(()) => {},
        }
        proof {
            let n = self.nodes();
            assert(node_wf(n, out as int));
            let s1 = n[out as int].shape@;
            assert(s1.drop_last() =~= Seq::<usize>::empty());
            assert(product(Seq::<usize>::empty()) == 1);
            assert(product(s1) == s1[0]);
            lemma_gathered_len(n, self.values(), refs@, n.len() as int);
        }
        let v = gather(&self.data, &refs);
        self.store_values(out, v);
        Ok(())
    }

    /// Recomputes `out` in place as the activation `kind` of `x`.
    pub fn apply_inplace(&mut self, kind: ActivationFunction, x: TensorRef, out: TensorRef) -> (res:
        Result<(), EngineError>)
        requires
            old(self).wf(),
        ensures
            final(self).wf(),
            final(self).zero() == old(self).zero(),
            final(self).arith() == old(self).arith(),
            res == activation_inplace_outcome(old(self).nodes(), kind, x, out),
            res is Err ==> final(self).same_contents(old(self)),
            res is Ok ==> {
                &&& final(self).nodes() == old(self).nodes()
                &&& final(self).values() == old(self).values().update(
                    out as int,
                    final(self).values()[out as int],
                )
                &&& map_rel(
                    old(self).arith(),
                    Arith::Relu,
                    old(self).values()[x as int],
                    old(self).zero(),
                    final(self).values()[out as int],
                )
                &&& final(self).gradients() == old(self).gradients()
                &&& final(self).exponents() == old(self).exponents()
            },
    {
        match self.graph.apply_inplace(kind, x, out) {
            Err(e) => {
                return Err(e);
            },
            Ok(()) => {},
        }
        proof {
            lemma_same_len(self.graph, x as int, out as int);
            assert(self.values()[x as int] == self.data@[x as int]@);
        }
        let v = map_with(&self.data[x], self.zero, Arith::Relu, self.arith);
        self.store_values(out, v);
        Ok(())
    }

    /// Overwrites the values of `h`; `ShapeMismatch` unless `data` has the tensor's length.
    pub fn set_data(&mut self, h: TensorRef, data: Vec<T>) -> (res: Result<(), EngineError>)
        requires
            old(self).wf(),
        ensures
            final(self).wf(),
            final(self).zero() == old(self).zero(),
            final(self).arith() == old(self).arith(),
            h >= old(self).nodes().len() ==> res == Err::<(), EngineError>(EngineError::InvalidRef),
            h < old(self).nodes().len() && data@.len() != old(self).nodes()[h as int].len ==> res
                == Err::<(), EngineError>(EngineError::ShapeMismatch),
            res is Err ==> final(self).same_contents(old(self)),
            h < old(self).nodes().len() && data@.len() == old(self).nodes()[h as int].len ==> {
                &&& res is Ok
                &&& final(self).nodes() == old(self).nodes()
                &&& final(self).values() == old(self).values().update(h as int, data@)
                &&& final(self).gradients() == old(self).gradients()
                &&& final(self).exponents() == old(self).exponents()
            },
    {
        match self.graph.check_len(h, data.len()) {
            Err(e) => {
                return Err(e);
            },
            Ok(()) => {},
        }
        self.store_values(h, data);
        Ok(())
    }

    /// Sets the gradient of `h`; `ShapeMismatch` unless `grad` has the tensor's length.
    pub fn set_grad(&mut self, h: TensorRef, grad: Vec<T>) -> (res: Result<(), EngineError>)
        requires
            old(self).wf(),
        ensures
            final(self).wf(),
            final(self).zero() == old(self).zero(),
            final(self).arith() == old(self).arith(),
            h >= old(self).nodes().len() ==> res == Err::<(), EngineError>(EngineError::InvalidRef),
            h < old(self).nodes().len() && grad@.len() != old(self).nodes()[h as int].len ==> res
                == Err::<(), EngineError>(EngineError::ShapeMismatch),
            res is Err ==> final(self).same_contents(old(self)),
            h < old(self).nodes().len() && grad@.len() == old(self).nodes()[h as int].len ==> {
                &&& res is Ok
                &&& final(self).nodes() == old(self).nodes()
                &&& final(self).values() == old(self).values()
                &&& final(self).gradients() == old(self).gradients().update(h as int, Some(grad@))
                &&& final(self).exponents() == old(self).exponents()
            },
    {
        match self.graph.check_len(h, grad.len()) {
            Err(e) => {
                return Err(e);
            },
            Ok(()) => {},
        }
        self.grads.set(h, Some(grad));
        proof {
            assert(self.gradients() =~= old(self).gradients().update(h as int, Some(grad@)));
        }
        Ok(())
    }

    /// `data[i] := data[i] + step * grad[i]` on tensor `h`. Gradient descent passes the learning
    /// rate negated as `step`. A tensor without a gradient is left as it is.
    pub fn update_data_from_grad(&mut self, h: TensorRef, step: T) -> (res: Result<(), EngineError>)
        requires
            old(self).wf(),
        ensures
            final(self).wf(),
            final(self).zero() == old(self).zero(),
            final(self).arith() == old(self).arith(),
            res.is_ok() <==> h < old(self).nodes().len(),
            res matches Err(e) ==> e == EngineError::InvalidRef,
            final(self).nodes() == old(self).nodes(),
            final(self).gradients() == old(self).gradients(),
            final(self).exponents() == old(self).exponents(),
            res is Ok && old(self).gradients()[h as int] is None ==> final(self).values() == old(
                self,
            ).values(),
            res is Err ==> final(self).values() == old(self).values(),
            res is Ok && old(self).gradients()[h as int] is Some ==> {
                let g = old(self).gradients()[h as int]->Some_0;
                &&& final(self).values() == old(self).values().update(
                    h as int,
                    final(self).values()[h as int],
                )
                &&& final(self).values()[h as int].len() == g.len()
                &&& forall|i: int|
                    0 <= i < g.len() ==> #[trigger] update_rel(
                        old(self).arith(),
                        old(self).values()[h as int][i],
                        g[i],
                        step,
                        final(self).values()[h as int][i],
                    )
            },
    {
        if h >= self.graph.len() {
            return Err(EngineError::InvalidRef);
        }
        proof {
            assert(self.gradients()[h as int] == grad_views(self.grads@)[h as int]);
            assert(self.values()[h as int] == self.data@[h as int]@);
        }
        match &self.grads[h] {
            None => {},
            Some(g) => {
                let mut v = copy_of(&self.data[h]);
                apply_update(&mut v, g, step, self.arith);
                self.store_values(h, v);
            },
        }
        Ok(())
    }

    /// Reverse-mode differentiation from `root`. The gradient of `root` is read (zeros where
    /// none is set); then every tensor that it reaches, each once and from the last created to
    /// the first, adds the contribution of each of its routes to the route's operand. Since a
    /// tensor comes after everything that reads it, its own gradient is complete before it
    /// passes it on. Values and graph are left as they are.
    pub fn backwards(&mut self, root: TensorRef) -> (res: Result<(), EngineError>)
        requires
            old(self).wf(),
        ensures
            final(self).wf(),
            final(self).zero() == old(self).zero(),
            final(self).arith() == old(self).arith(),
            final(self).nodes() == old(self).nodes(),
            final(self).values() == old(self).values(),
            final(self).exponents() == old(self).exponents(),
            res.is_ok() <==> root < old(self).nodes().len(),
            res matches Err(e) ==> e == EngineError::InvalidRef && final(self).gradients() == old(
                self,
            ).gradients(),
            res is Ok ==> old(self).backward_result(root, final(self).gradients()),
    {
        let order = match self.graph.backward_order(root) {
            Ok(o) => o,
            Err(e) => {
                return Err(e);
            },
        };
        let ghost nodes = self.nodes();
        let ghost vals = self.values();
        let ghost exps = self.exponents();
        let ghost arith = self.arith;
        let ghost zero = self.zero;
        proof {
            assert(self.gradients()[root as int] == slot_view(self.grads@[root as int]));
        }
        let root_len = self.graph.len_of(root);
        if self.grads[root].is_none() {
            let z = filled(root_len, self.zero);
            self.grads.set(root, Some(z));
        }
        proof {
            assert(self.gradients() =~= seeded(old(self).gradients(), root as int, root_len as nat, zero));
        }
        let ghost start = self.gradients();
        let ghost mut states: Seq<Seq<Option<Seq<T>>>> = seq![start];
        let mut j: usize = 0;
        while j < order.len()
            invariant
                self.wf(),
                self.nodes() == nodes,
                self.values() == vals,
                self.exponents() == exps,
                self.arith() == arith,
                self.zero() == zero,
                is_backward_order(nodes, root as int, order@),
                root < nodes.len(),
                j <= order@.len(),
                states.len() == j + 1,
                states[0] == start,
                states.last() == self.gradients(),
                forall|jj: int|
                    0 <= jj < j ==> #[trigger] node_step(
                        arith,
                        nodes,
                        vals,
                        exps,
                        zero,
                        order@[jj] as int,
                        states[jj],
                        states[jj + 1],
                    ),
            decreases order@.len() - j,
        {
            let h = order[j];
            proof {
                assert(order@[j as int] <= root);
            }
            let ghost before = self.gradients();
            let h_len = self.graph.len_of(h);
            proof {
                assert(self.gradients()[h as int] == slot_view(self.grads@[h as int]));
            }
            let out_grad = match &self.grads[h] {
                Some(g) => copy_of(g),
                None => filled(h_len, self.zero),
            };
            proof {
                assert(out_grad@ == grad_or_zeros(before, h as int, h_len as nat, zero));
            }
            let routes = match self.graph.grad_routes(h) {
                Ok(r) => r,
                Err(_) => Vec::new(),
            };
            let exponent = self.exponents[h];
            let ghost mut inner: Seq<Seq<Option<Seq<T>>>> = seq![before];
            let mut k: usize = 0;
            while k < routes.len()
                invariant
                    self.wf(),
                    self.nodes() == nodes,
                    self.values() == vals,
                    self.exponents() == exps,
                    self.arith() == arith,
                    self.zero() == zero,
                    h < nodes.len(),
                    routes@ == routes_of(nodes, h as int),
                    exponent == exps[h as int],
                    out_grad@ == grad_or_zeros(before, h as int, nodes[h as int].len as nat, zero),
                    out_grad@.len() == nodes[h as int].len,
                    k <= routes@.len(),
                    inner.len() == k + 1,
                    inner[0] == before,
                    inner.last() == self.gradients(),
                    self.gradients()[h as int] == before[h as int],
                    forall|kk: int|
                        0 <= kk < k ==> #[trigger] route_step(
                            arith,
                            nodes,
                            vals,
                            exps,
                            zero,
                            h as int,
                            kk,
                            inner[kk],
                            inner[kk + 1],
                        ),
                decreases routes@.len() - k,
            {
                proof {
                    crate::rules::lemma_route_fits(self.graph, h, k as int);
                }
                let c = contribution(
                    &self.graph,
                    &self.data,
                    h,
                    k,
                    &out_grad,
                    exponent,
                    self.zero,
                    self.arith,
                );
                let t = routes[k].target;
                let ghost mid = self.gradients();
                proof {
                    assert(self.gradients()[t as int] == slot_view(self.grads@[t as int]));
                }
                let n = accumulate(&self.grads[t], c, self.arith);
                self.grads.set(t, n);
                proof {
                    let after = self.gradients();
                    assert(after =~= mid.update(t as int, slot_view(n)));
                    assert(grad_or_zeros(mid, h as int, nodes[h as int].len as nat, zero)
                        == out_grad@);
                    assert(contribution_rel(
                        arith,
                        routes_of(nodes, h as int)[k as int],
                        vals,
                        grad_or_zeros(mid, h as int, nodes[h as int].len as nat, zero),
                        exps[h as int],
                        zero,
                        c@,
                    ));
                    assert(route_step(arith, nodes, vals, exps, zero, h as int, k as int, mid, after));
                    let inner2 = inner.push(after);
                    assert forall|kk: int| 0 <= kk < k + 1 implies #[trigger] route_step(
                        arith,
                        nodes,
                        vals,
                        exps,
                        zero,
                        h as int,
                        kk,
                        inner2[kk],
                        inner2[kk + 1],
                    ) by {
                        if kk < k {
                            assert(inner2[kk] == inner[kk] && inner2[kk + 1] == inner[kk + 1]);
                        }
                    }
                    inner = inner2;
                }
                k = k + 1;
            }
            proof {
                assert(route_chain(arith, nodes, vals, exps, zero, h as int, inner));
                assert(node_step(arith, nodes, vals, exps, zero, h as int, before, self.gradients()));
                let states2 = states.push(self.gradients());
                assert forall|jj: int| 0 <= jj < j + 1 implies #[trigger] node_step(
                    arith,
                    nodes,
                    vals,
                    exps,
                    zero,
                    order@[jj] as int,
                    states2[jj],
                    states2[jj + 1],
                ) by {
                    if jj < j {
                        assert(states2[jj] == states[jj] && states2[jj + 1] == states[jj + 1]);
                    }
                }
                states = states2;
            }
            j = j + 1;
        }
        proof {
            assert(backward_chain(arith, nodes, vals, exps, zero, order@, states));
            assert(old(self).arith() == arith && old(self).zero() == zero);
            assert(old(self).nodes() == nodes && old(self).values() == vals);
            assert(old(self).exponents() == exps);
            assert(root_len == nodes[root as int].len);
            assert(states[0] == seeded(
                old(self).gradients(),
                root as int,
                old(self).nodes()[root as int].len as nat,
                old(self).zero(),
            ));
            assert(states.last() == self.gradients());
            assert(old(self).backward_result(root, self.gradients()));
        }
        Ok(())
    }

    /// Clears the gradient of `root` and of every tensor that its gradient reaches; the others
    /// keep theirs.
    pub fn reset_grads(&mut self, root: TensorRef) -> (res: Result<(), EngineError>)
        requires
            old(self).wf(),
        ensures
            final(self).wf(),
            final(self).zero() == old(self).zero(),
            final(self).arith() == old(self).arith(),
            final(self).nodes() == old(self).nodes(),
            final(self).values() == old(self).values(),
            final(self).exponents() == old(self).exponents(),
            res.is_ok() <==> root < old(self).nodes().len(),
            res matches Err(e) ==> e == EngineError::InvalidRef,
            res is Err ==> final(self).gradients() == old(self).gradients(),
            res is Ok ==> final(self).gradients().len() == old(self).gradients().len(),
            res is Ok ==> forall|i: TensorRef|
                i < old(self).nodes().len() ==> #[trigger] final(self).gradients()[i as int] == (if i
                    <= root && reaches(old(self).nodes(), root as int, i as int) {
                    None
                } else {
                    old(self).gradients()[i as int]
                }),
    {
        let order = match self.graph.backward_order(root) {
            Ok(o) => o,
            Err(e) => {
                return Err(e);
            },
        };
        let ghost g0 = self.gradients();
        let mut j: usize = 0;
        while j < order.len()
            invariant
                self.wf(),
                self.nodes() == old(self).nodes(),
                self.values() == old(self).values(),
                self.exponents() == old(self).exponents(),
                self.zero() == old(self).zero(),
                self.arith() == old(self).arith(),
                g0 == old(self).gradients(),
                is_backward_order(old(self).nodes(), root as int, order@),
                root < old(self).nodes().len(),
                j <= order@.len(),
                self.gradients().len() == g0.len(),
                forall|i: TensorRef|
                    i < g0.len() ==> #[trigger] self.gradients()[i as int] == (if order@.take(
                        j as int,
                    ).contains(i) {
                        None
                    } else {
                        g0[i as int]
                    }),
            decreases order@.len() - j,
        {
            let h = order[j];
            proof {
                assert(order@[j as int] <= root);
            }
            let ghost before = self.gradients();
            self.grads.set(h, None);
            proof {
                assert(self.gradients() =~= before.update(h as int, None));
                assert forall|i: TensorRef| i < g0.len() implies #[trigger] self.gradients()[i as int]
                    == (if order@.take(j + 1).contains(i) {
                    None
                } else {
                    g0[i as int]
                }) by {
                    assert(order@.take(j + 1)[j as int] == h);
                    if order@.take(j as int).contains(i) {
                        let m = choose|m: int| 0 <= m < j && #[trigger] order@.take(j as int)[m] == i;
                        assert(order@.take(j + 1)[m] == i);
                    }
                    if order@.take(j + 1).contains(i) && i != h {
                        let m = choose|m: int| 0 <= m < j + 1 && #[trigger] order@.take(j + 1)[m] == i;
                        assert(order@.take(j as int)[m] == i);
                    }
                }
            }
            j = j + 1;
        }
        proof {
            assert(order@.take(j as int) =~= order@);
            assert forall|i: TensorRef| i < old(self).nodes().len() implies #[trigger] self.gradients()[i
                as int] == (if i <= root && reaches(old(self).nodes(), root as int, i as int) {
                None
            } else {
                old(self).gradients()[i as int]
            }) by {
                if order@.contains(i) {
                    let m = choose|m: int| 0 <= m < order@.len() && order@[m] == i;
                    assert(order@[m] <= root);
                }
            }
        }
        Ok(())
    }

    /// Appends the dot product of `l` and `r`: their elementwise product, then its total.
    /// Returns the handle of the total.
    pub fn dot_product(&mut self, l: TensorRef, r: TensorRef) -> (res: Result<TensorRef, EngineError>)
        requires
            old(self).wf(),
            old(self).nodes().len() + 2 <= usize::MAX,
        ensures
            final(self).wf(),
            final(self).zero() == old(self).zero(),
            final(self).arith() == old(self).arith(),
            res.is_ok() <==> binary_outcome(old(self).nodes(), l, r) is Ok,
            res matches Err(e) ==> binary_outcome(old(self).nodes(), l, r) == Err::<(), EngineError>(
                e,
            ) && final(self).same_contents(old(self)),
            res matches Ok(s) ==> {
                let m = old(self).nodes().len() as usize;
                &&& s == m + 1
                &&& final(self).nodes().len() == old(self).nodes().len() + 2
                &&& final(self).nodes()[m as int].operation == Some(Operation::Mul(l, r))
                &&& final(self).nodes()[s as int].operation == Some(Operation::Sum(m))
                &&& elementwise_rel(
                    old(self).arith(),
                    Arith::Mul,
                    old(self).values()[l as int],
                    old(self).values()[r as int],
                    final(self).values()[m as int],
                )
                &&& final(self).values()[s as int].len() == 1
                &&& total_rel(
                    old(self).arith(),
                    old(self).zero(),
                    final(self).values()[m as int],
                    final(self).values()[s as int][0],
                )
            },
    {
        match crate::composite::CompositeOperation::dot_product(self, l, r) {
            Ok(c) => Ok(c.output_tensor),
            Err(e) => Err(e),
        }
    }

    /// Computes the dot product of `l` and `r` into the existing one-element tensor `out`: their
    /// elementwise product is appended as a fresh tensor, and its total goes into `out` in place.
    pub fn dot_product_inplace(&mut self, l: TensorRef, r: TensorRef, out: TensorRef) -> (res:
        Result<(), EngineError>)
        requires
            old(self).wf(),
            old(self).nodes().len() < usize::MAX,
        ensures
            final(self).wf(),
            final(self).zero() == old(self).zero(),
            final(self).arith() == old(self).arith(),
            res == dot_inplace_outcome(old(self).nodes(), l, r, out),
            res is Err ==> final(self).same_contents(old(self)),
            res is Ok ==> {
                let m = old(self).nodes().len() as int;
                &&& appended(old(self).nodes(), final(self).nodes())
                &&& final(self).nodes()[m].operation == Some(Operation::Mul(l, r))
                &&& final(self).values().len() == m + 1
                &&& forall|i: int|
                    0 <= i < m && i != out ==> #[trigger] final(self).values()[i] == old(
                        self,
                    ).values()[i]
                &&& elementwise_rel(
                    old(self).arith(),
                    Arith::Mul,
                    old(self).values()[l as int],
                    old(self).values()[r as int],
                    final(self).values()[m],
                )
                &&& final(self).values()[out as int].len() == 1
                &&& total_rel(
                    old(self).arith(),
                    old(self).zero(),
                    final(self).values()[m],
                    final(self).values()[out as int][0],
                )
                &&& final(self).gradients() == old(self).gradients().push(None)
            },
    {
        let m = match self.graph.dot_product_inplace(l, r, out) {
            Ok(m) => m,
            Err(e) => {
                return Err(e);
            },
        };
        let z = self.zero;
        let m = self.finish_derived(m, z);
        let ghost mid = self.values();
        match self.sum_inplace(m, out) {
            Ok(()) => {},
            Err(_) => {},
        }
        proof {
            assert(self.values() == mid.update(out as int, self.values()[out as int]));
        }
        Ok(())
    }

    /// Moves a tensor made outside the context into it, as a leaf with the same shape and
    /// values; `ShapeMismatch` unless its length is the product of its shape.
    pub fn transfer_tensor(&mut self, tensor: Tensor<T>) -> (r: Result<TensorRef, EngineError>)
        requires
            old(self).wf(),
            old(self).nodes().len() < usize::MAX,
        ensures
            final(self).wf(),
            r.is_ok() <==> tensor.data@.len() == product(tensor.shape@),
            r matches Err(e) ==> e == EngineError::ShapeMismatch && final(self).same_contents(
                old(self),
            ),
            r matches Ok(h) ==> {
                &&& h == old(self).nodes().len()
                &&& appended(old(self).nodes(), final(self).nodes())
                &&& final(self).nodes()[h as int].shape@ == tensor.shape@
                &&& final(self).nodes()[h as int].operation is None
                &&& final(self).values() == old(self).values().push(tensor.data@)
                &&& final(self).gradients() == old(self).gradients().push(None)
            },
            final(self).zero() == old(self).zero(),
            final(self).arith() == old(self).arith(),
    {
        self.new_tensor(tensor.shape, tensor.data)
    }

    /// A snapshot of tensor `h`; `InvalidRef` for a handle never issued.
    pub fn get_tensor(&self, h: TensorRef) -> (r: Result<Tensor<T>, EngineError>)
        requires
            self.wf(),
        ensures
            r.is_ok() <==> h < self.nodes().len(),
            r matches Err(e) ==> e == EngineError::InvalidRef,
            r matches Ok(t) ==> {
                &&& t.shape@ == self.nodes()[h as int].shape@
                &&& t.data@ == self.values()[h as int]
                &&& t.grad is Some <==> self.gradients()[h as int] is Some
                &&& (t.grad matches Some(g) ==> self.gradients()[h as int] == Some(g@))
                &&& same_operation(t.operation, self.nodes()[h as int].operation)
            },
    {
        let node = match self.graph.node(h) {
            Ok(n) => n,
            Err(e) => {
                return Err(e);
            },
        };
        let shape = copy_of(&node.shape);
        let data = copy_of(&self.data[h]);
        proof {
            assert(self.values()[h as int] == self.data@[h as int]@);
            assert(self.gradients()[h as int] == grad_views(self.grads@)[h as int]);
        }
        let grad = match &self.grads[h] {
            Some(g) => Some(copy_of(g)),
            None => None,
        };
        Ok(Tensor { shape, data, grad, operation: copy_operation(&node.operation) })
    }
}

} // verus!
