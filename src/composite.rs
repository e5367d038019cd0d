use vstd::prelude::*;
use crate::activation::ActivationFunction;
use crate::graph::{
    activation_inplace_outcome, appended, binary_outcome, concat_inplace_outcome,
    elementwise_inplace_outcome, sum_inplace_outcome,
};
use crate::engine::TensorContext;
use crate::rules::{elementwise_rel, gathered, map_rel, total_rel, Arith};
use crate::tensor::{EngineError, Node, Operation, TensorRef};

verus! {

/// A multi-step subgraph built once, so that each later pass recomputes its steps in place, in
/// the recorded order, instead of appending new tensors.
#[derive(Debug, Clone)]
pub struct CompositeOperation {
    /// Each step's operation and the tensor that holds its result.
    pub operations: Vec<(Operation, TensorRef)>,
    /// The tensor that holds the result of the last step.
    pub output_tensor: TensorRef,
}

/// Whether the step `op`, writing into `out`, can be recomputed in place: `Ok`, or the error
/// that the in-place variant of its operation reports. A power has no in-place variant.
pub open spec fn step_outcome(nodes: Seq<Node>, op: Operation, out: TensorRef) -> Result<
    (),
    EngineError,
> {
    match op {
        Operation::Add(v) => if v@.len() == 2 {
            elementwise_inplace_outcome(nodes, v@[0], v@[1], out)
        } else {
            Err(EngineError::UnsupportedOperation)
        },
        Operation::Sub(l, r) => elementwise_inplace_outcome(nodes, l, r, out),
        Operation::Mul(l, r) => elementwise_inplace_outcome(nodes, l, r, out),
        Operation::Sum(x) => sum_inplace_outcome(nodes, x, out),
        Operation::Concat(v) => concat_inplace_outcome(nodes, v@, out),
        Operation::ReLU(x) => activation_inplace_outcome(nodes, ActivationFunction::ReLU, x, out),
        _ => Err(EngineError::UnsupportedOperation),
    }
}

/// The outcome of the first step that cannot be recomputed in place, or `Ok`.
pub open spec fn steps_outcome(nodes: Seq<Node>, steps: Seq<(Operation, TensorRef)>) -> Result<
    (),
    EngineError,
>
    decreases steps.len(),
{
    if steps.len() == 0 {
        Ok(())
    } else {
        match steps_outcome(nodes, steps.drop_last()) {
            Err(e) => Err(e),
            Ok(()) => step_outcome(nodes, steps.last().0, steps.last().1),
        }
    }
}

/// Whether `after` holds the values of `before` with step `op` recomputed into `out`.
pub open spec fn step_rel<T, F: Fn(Arith, T, T) -> T>(
    arith: F,
    zero: T,
    before: Seq<Seq<T>>,
    op: Operation,
    out: TensorRef,
    after: Seq<Seq<T>>,
) -> bool {
    &&& after == before.update(out as int, after[out as int])
    &&& match op {
        Operation::Add(v) => elementwise_rel(
            arith,
            Arith::Add,
            before[v@[0] as int],
            before[v@[1] as int],
            after[out as int],
        ),
        Operation::Sub(l, r) => elementwise_rel(
            arith,
            Arith::Sub,
            before[l as int],
            before[r as int],
            after[out as int],
        ),
        Operation::Mul(l, r) => elementwise_rel(
            arith,
            Arith::Mul,
            before[l as int],
            before[r as int],
            after[out as int],
        ),
        Operation::Sum(x) => after[out as int].len() == 1 && total_rel(
            arith,
            zero,
            before[x as int],
            after[out as int][0],
        ),
        Operation::Concat(v) => after[out as int] == gathered(before, v@),
        Operation::ReLU(x) => map_rel(arith, Arith::Relu, before[x as int], zero, after[out as int]),
        _ => false,
    }
}

/// Whether `states` is a run of `steps` in order, one state of values per step and one more.
pub open spec fn steps_chain<T, F: Fn(Arith, T, T) -> T>(
    arith: F,
    zero: T,
    steps: Seq<(Operation, TensorRef)>,
    states: Seq<Seq<Seq<T>>>,
) -> bool {
    &&& states.len() == steps.len() + 1
    &&& forall|k: int|
        0 <= k < steps.len() ==> #[trigger] step_rel(
            arith,
            zero,
            states[k],
            steps[k].0,
            steps[k].1,
            states[k + 1],
        )
}

impl CompositeOperation {
    /// Builds the dot product of `left` and `right`: their elementwise product, then its total.
    pub fn dot_product<T: Copy, F: Fn(Arith, T, T) -> T + Copy>(
        ctx: &mut TensorContext<T, F>,
        left: TensorRef,
        right: TensorRef,
    ) -> (r: Result<CompositeOperation, EngineError>)
        requires
            old(ctx).wf(),
            old(ctx).nodes().len() + 2 <= usize::MAX,
        ensures
            final(ctx).wf(),
            final(ctx).zero() == old(ctx).zero(),
            final(ctx).arith() == old(ctx).arith(),
            r.is_ok() <==> binary_outcome(old(ctx).nodes(), left, right) is Ok,
            r matches Err(e) ==> binary_outcome(old(ctx).nodes(), left, right) == Err::<
                (),
                EngineError,
            >(e) && final(ctx).same_contents(old(ctx)),
            r matches Ok(c) ==> {
                let m = old(ctx).nodes().len() as usize;
                let s = (old(ctx).nodes().len() + 1) as usize;
                &&& final(ctx).nodes().len() == old(ctx).nodes().len() + 2
                &&& final(ctx).nodes().take(m as int) == old(ctx).nodes()
                &&& final(ctx).nodes()[m as int].operation == Some(Operation::Mul(left, right))
                &&& final(ctx).nodes()[s as int].operation == Some(Operation::Sum(m))
                &&& final(ctx).nodes()[s as int].shape@ == seq![1usize]
                &&& final(ctx).values().take(m as int) == old(ctx).values()
                &&& elementwise_rel(
                    old(ctx).arith(),
                    Arith::Mul,
                    old(ctx).values()[left as int],
                    old(ctx).values()[right as int],
                    final(ctx).values()[m as int],
                )
                &&& final(ctx).values()[s as int].len() == 1
                &&& total_rel(
                    old(ctx).arith(),
                    old(ctx).zero(),
                    final(ctx).values()[m as int],
                    final(ctx).values()[s as int][0],
                )
                &&& c.operations@ == seq![(Operation::Mul(left, right), m), (Operation::Sum(m), s)]
                &&& c.output_tensor == s
            },
    {
        let m = match ctx.mul(left, right) {
            Ok(m) => m,
            Err(e) => {
                return Err(e);
            },
        };
        let ghost c1 = *ctx;
        let s = match ctx.sum(m) {
            Ok(s) => s,
            Err(e) => {
                return Err(e);
            },
        };
        proof {
            assert(ctx.nodes().drop_last() == c1.nodes());
            assert(c1.nodes().drop_last() == old(ctx).nodes());
            assert(ctx.nodes().take(m as int) =~= old(ctx).nodes());
            assert(ctx.values().take(m as int) =~= old(ctx).values());
            assert(ctx.values()[m as int] == c1.values()[m as int]);
            assert(ctx.nodes()[m as int] == c1.nodes()[m as int]);
        }
        let operations = vec![(Operation::Mul(left, right), m), (Operation::Sum(m), s)];
        Ok(CompositeOperation { operations, output_tensor: s })
    }

    fn check_step<T: Copy, F: Fn(Arith, T, T) -> T + Copy>(
        ctx: &TensorContext<T, F>,
        op: &Operation,
        out: TensorRef,
    ) -> (r: Result<(), EngineError>)
        requires
            ctx.wf(),
        ensures
            r == step_outcome(ctx.nodes(), *op, out),
    {
        let g = ctx.graph();
        match op {
            Operation::Add(v) => {
                if v.len() == 2 {
                    g.add_inplace(v[0], v[1], out)
                } else {
                    Err(EngineError::UnsupportedOperation)
                }
            },
            Operation::Sub(l, r) => g.sub_inplace(*l, *r, out),
            Operation::Mul(l, r) => g.mul_inplace(*l, *r, out),
            Operation::Sum(x) => g.sum_inplace(*x, out),
            Operation::Concat(v) => g.concat_inplace(v, out),
            Operation::ReLU(x) => g.apply_inplace(ActivationFunction::ReLU, *x, out),
            _ => Err(EngineError::UnsupportedOperation),
        }
    }

    /// Recomputes every step in place, in the recorded order, from the current values. When
    /// some step cannot be recomputed in place, nothing is changed and its error is returned.
    pub fn perform<T: Copy, F: Fn(Arith, T, T) -> T + Copy>(&self, ctx: &mut TensorContext<T, F>) -> (r:
        Result<(), EngineError>)
        requires
            old(ctx).wf(),
        ensures
            final(ctx).wf(),
            final(ctx).zero() == old(ctx).zero(),
            final(ctx).arith() == old(ctx).arith(),
            final(ctx).nodes() == old(ctx).nodes(),
            final(ctx).gradients() == old(ctx).gradients(),
            final(ctx).exponents() == old(ctx).exponents(),
            r == steps_outcome(old(ctx).nodes(), self.operations@),
            r is Err ==> final(ctx).values() == old(ctx).values(),
            r is Ok ==> exists|states: Seq<Seq<Seq<T>>>|
                #[trigger] steps_chain(old(ctx).arith(), old(ctx).zero(), self.operations@, states)
                    && states[0] == old(ctx).values() && states.last() == final(ctx).values(),
    {
        let n = self.operations.len();
        let mut k: usize = 0;
        while k < n
            invariant
                ctx.wf(),
                *ctx == *old(ctx),
                n == self.operations@.len(),
                k <= n,
                steps_outcome(ctx.nodes(), self.operations@.take(k as int)) is Ok,
            decreases n - k,
        {
            let (op, out) = &self.operations[k];
            proof {
                assert(self.operations@.take(k + 1).drop_last() =~= self.operations@.take(
                    k as int,
                ));
            }
            match Self::check_step(ctx, op, *out) {
                Err(e) => {
                    proof {
                        lemma_first_error_stays(ctx.nodes(), self.operations@, k + 1);
                    }
                    return Err(e);
                },
                Ok(()) => {},
            }
            k = k + 1;
        }
        proof {
            assert(self.operations@.take(n as int) =~= self.operations@);
        }
        let ghost mut states: Seq<Seq<Seq<T>>> = seq![ctx.values()];
        let mut k: usize = 0;
        while k < n
            invariant
                ctx.wf(),
                ctx.nodes() == old(ctx).nodes(),
                ctx.gradients() == old(ctx).gradients(),
                ctx.exponents() == old(ctx).exponents(),
                ctx.zero() == old(ctx).zero(),
                ctx.arith() == old(ctx).arith(),
                n == self.operations@.len(),
                k <= n,
                steps_outcome(old(ctx).nodes(), self.operations@) is Ok,
                states.len() == k + 1,
                states[0] == old(ctx).values(),
                states.last() == ctx.values(),
                forall|kk: int|
                    0 <= kk < k ==> #[trigger] step_rel(
                        old(ctx).arith(),
                        old(ctx).zero(),
                        states[kk],
                        self.operations@[kk].0,
                        self.operations@[kk].1,
                        states[kk + 1],
                    ),
            decreases n - k,
        {
            let (op, out) = &self.operations[k];
            let out = *out;
            proof {
                lemma_each_step_ok(old(ctx).nodes(), self.operations@, k as int);
            }
            let ghost before = ctx.values();
            let res = match op {
                Operation::Add(v) => ctx.add_inplace(v[0], v[1], out),
                Operation::Sub(l, r) => ctx.sub_inplace(*l, *r, out),
                Operation::Mul(l, r) => ctx.mul_inplace(*l, *r, out),
                Operation::Sum(x) => ctx.sum_inplace(*x, out),
                Operation::Concat(v) => ctx.concat_inplace(v.clone(), out),
                Operation::ReLU(x) => ctx.apply_inplace(ActivationFunction::ReLU, *x, out),
                _ => Err(EngineError::UnsupportedOperation),
            };
            proof {
                let s2 = states.push(ctx.values());
                assert(step_rel(
                    old(ctx).arith(),
                    old(ctx).zero(),
                    before,
                    self.operations@[k as int].0,
                    self.operations@[k as int].1,
                    ctx.values(),
                ));
                assert forall|kk: int| 0 <= kk < k + 1 implies #[trigger] step_rel(
                    old(ctx).arith(),
                    old(ctx).zero(),
                    s2[kk],
                    self.operations@[kk].0,
                    self.operations@[kk].1,
                    s2[kk + 1],
                ) by {
                    if kk < k {
                        assert(s2[kk] == states[kk] && s2[kk + 1] == states[kk + 1]);
                    }
                }
                states = s2;
            }
            k = k + 1;
        }
        proof {
            assert(steps_chain(old(ctx).arith(), old(ctx).zero(), self.operations@, states));
        }
        Ok(())
    }

    /// Runs the backward pass from the composite's output.
    pub fn backprop<T: Copy, F: Fn(Arith, T, T) -> T + Copy>(&self, ctx: &mut TensorContext<T, F>) -> (r:
        Result<(), EngineError>)
        requires
            old(ctx).wf(),
        ensures
            final(ctx).wf(),
            final(ctx).zero() == old(ctx).zero(),
            final(ctx).arith() == old(ctx).arith(),
            final(ctx).nodes() == old(ctx).nodes(),
            final(ctx).values() == old(ctx).values(),
            final(ctx).exponents() == old(ctx).exponents(),
            r.is_ok() <==> self.output_tensor < old(ctx).nodes().len(),
            r matches Err(e) ==> e == EngineError::InvalidRef && final(ctx).gradients() == old(
                ctx,
            ).gradients(),
            r is Ok ==> old(ctx).backward_result(self.output_tensor, final(ctx).gradients()),
    {
        ctx.backwards(self.output_tensor)
    }
}

/// Once a prefix of the steps fails, so does every longer prefix, with the same error.
proof fn lemma_first_error_stays(nodes: Seq<Node>, steps: Seq<(Operation, TensorRef)>, k: int)
    requires
        0 < k <= steps.len(),
        steps_outcome(nodes, steps.take(k)) is Err,
    ensures
        steps_outcome(nodes, steps) == steps_outcome(nodes, steps.take(k)),
    decreases steps.len() - k,
{
    if k < steps.len() {
        assert(steps.take(k + 1).drop_last() =~= steps.take(k));
        lemma_first_error_stays(nodes, steps, k + 1);
    } else {
        assert(steps.take(k) =~= steps);
    }
}

/// When no step fails, each one can be recomputed in place.
proof fn lemma_each_step_ok(nodes: Seq<Node>, steps: Seq<(Operation, TensorRef)>, k: int)
    requires
        0 <= k < steps.len(),
        steps_outcome(nodes, steps) is Ok,
    ensures
        step_outcome(nodes, steps[k].0, steps[k].1) is Ok,
    decreases steps.len(),
{
    if k < steps.len() - 1 {
        assert(steps.drop_last()[k] == steps[k]);
        lemma_each_step_ok(nodes, steps.drop_last(), k);
    }
}

} // verus!
