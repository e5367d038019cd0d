use vstd::prelude::*;
use crate::graph::binary_outcome;
use crate::engine::TensorContext;
use crate::rules::{elementwise_rel, total_rel, Arith};
use crate::tensor::{EngineError, Operation, TensorRef};

verus! {

/// The loss kinds that a network may be trained against.
#[derive(Debug, Clone, Copy, PartialEq, Eq, Structural)]
pub enum LossFunction {
    MeanSquaredError,
    CrossEntropy,
    SparseCrossEntropy,
}

impl LossFunction {
    /// Appends the loss of `input` against `desired`. The squared error is
    /// `sum((input - desired) * (input - desired))`, built from three new tensors; the
    /// cross-entropy kinds have no rules and are `UnsupportedOperation`.
    pub fn loss<T: Copy, F: Fn(Arith, T, T) -> T + Copy>(
        &self,
        ctx: &mut TensorContext<T, F>,
        input: TensorRef,
        desired: TensorRef,
    ) -> (r: Result<TensorRef, EngineError>)
        requires
            old(ctx).wf(),
            old(ctx).nodes().len() + 3 <= usize::MAX,
        ensures
            final(ctx).wf(),
            final(ctx).zero() == old(ctx).zero(),
            final(ctx).arith() == old(ctx).arith(),
            r.is_ok() <==> *self == LossFunction::MeanSquaredError && binary_outcome(
                old(ctx).nodes(),
                input,
                desired,
            ) is Ok,
            r matches Err(e) ==> final(ctx).same_contents(old(ctx)) && (if *self
                == LossFunction::MeanSquaredError {
                binary_outcome(old(ctx).nodes(), input, desired) == Err::<(), EngineError>(e)
            } else {
                e == EngineError::UnsupportedOperation
            }),
            r matches Ok(h) ==> {
                let d = old(ctx).nodes().len() as usize;
                let sq = (d + 1) as usize;
                &&& h == d + 2
                &&& final(ctx).nodes().len() == old(ctx).nodes().len() + 3
                &&& final(ctx).nodes().take(d as int) == old(ctx).nodes()
                &&& final(ctx).values().take(d as int) == old(ctx).values()
                &&& final(ctx).nodes()[d as int].operation == Some(Operation::Sub(input, desired))
                &&& final(ctx).nodes()[sq as int].operation == Some(Operation::Mul(d, d))
                &&& final(ctx).nodes()[h as int].operation == Some(Operation::Sum(sq))
                &&& elementwise_rel(
                    old(ctx).arith(),
                    Arith::Sub,
                    old(ctx).values()[input as int],
                    old(ctx).values()[desired as int],
                    final(ctx).values()[d as int],
                )
                &&& elementwise_rel(
                    old(ctx).arith(),
                    Arith::Mul,
                    final(ctx).values()[d as int],
                    final(ctx).values()[d as int],
                    final(ctx).values()[sq as int],
                )
                &&& final(ctx).values()[h as int].len() == 1
                &&& total_rel(
                    old(ctx).arith(),
                    old(ctx).zero(),
                    final(ctx).values()[sq as int],
                    final(ctx).values()[h as int][0],
                )
            },
    {
        match self {
            LossFunction::MeanSquaredError => {},
            _ => {
                return Err(EngineError::UnsupportedOperation);
            },
        }
        let d = match ctx.sub(input, desired) {
            Ok(d) => d,
            Err(e) => {
                return Err(e);
            },
        };
        let ghost c1 = *ctx;
        let sq = match ctx.mul(d, d) {
            Ok(sq) => sq,
            Err(e) => {
                return Err(e);
            },
        };
        let ghost c2 = *ctx;
        let h = match ctx.sum(sq) {
            Ok(h) => h,
            Err(e) => {
                return Err(e);
            },
        };
        proof {
            assert(c1.nodes().drop_last() == old(ctx).nodes());
            assert(c2.nodes().drop_last() == c1.nodes());
            assert(ctx.nodes().drop_last() == c2.nodes());
            assert(ctx.nodes().take(d as int) =~= old(ctx).nodes());
            assert(ctx.values().take(d as int) =~= old(ctx).values());
            assert(ctx.values()[d as int] == c1.values()[d as int]);
            assert(ctx.values()[sq as int] == c2.values()[sq as int]);
            assert(ctx.nodes()[d as int] == c1.nodes()[d as int]);
            assert(ctx.nodes()[sq as int] == c2.nodes()[sq as int]);
        }
        Ok(h)
    }
}

} // verus!
