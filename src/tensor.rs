use vstd::prelude::*;

verus! {

/// A handle into a [`crate::graph::Graph`]: the position of a tensor in its arena.
pub type TensorRef = usize;

/// How a derived tensor was computed, with the handles of its operands.
///
/// The exponent of `Pow` is a number that the graph does not hold: it lives beside the
/// tensor's values.
#[derive(Debug, Clone, PartialEq)]
pub enum Operation {
    Add(Vec<TensorRef>),
    Sub(TensorRef, TensorRef),
    Mul(TensorRef, TensorRef),
    Pow(TensorRef),
    Sum(TensorRef),
    Concat(Vec<TensorRef>),
    ReLU(TensorRef),
}

/// What the graph records of one tensor: its shape, the length of its flat buffer and, for a
/// derived tensor, the operation that produced it.
#[derive(Debug, Clone, PartialEq)]
pub struct Node {
    pub shape: Vec<usize>,
    pub len: usize,
    pub operation: Option<Operation>,
}

/// The errors that the engine reports to its caller.
#[derive(Debug, Clone, Copy, PartialEq, Eq, Structural)]
pub enum EngineError {
    /// A handle that the graph never issued.
    InvalidRef,
    /// Operand, output or buffer lengths that disagree.
    ShapeMismatch,
    /// A layer used before its compile step ran.
    UninitializedParameter,
    /// An activation kind without a forward and backward rule.
    UnsupportedOperation,
}

/// The number of elements of a tensor with the given shape.
pub open spec fn product(s: Seq<usize>) -> int
    decreases s.len(),
{
    if s.len() == 0 {
        1
    } else {
        product(s.drop_last()) * s.last()
    }
}

/// The handles that an operation reads, in order.
pub open spec fn operands(op: Option<Operation>) -> Seq<TensorRef> {
    match op {
        None => seq![],
        Some(Operation::Add(v)) => v@,
        Some(Operation::Sub(l, r)) => seq![l, r],
        Some(Operation::Mul(l, r)) => seq![l, r],
        Some(Operation::Pow(x)) => seq![x],
        Some(Operation::Sum(x)) => seq![x],
        Some(Operation::Concat(v)) => v@,
        Some(Operation::ReLU(x)) => seq![x],
    }
}

/// Whether two recorded operations are the same operation on the same operands.
pub open spec fn same_operation(a: Option<Operation>, b: Option<Operation>) -> bool {
    match a {
        None => b is None,
        Some(Operation::Add(x)) => b matches Some(Operation::Add(y)) && x@ == y@,
        Some(Operation::Concat(x)) => b matches Some(Operation::Concat(y)) && x@ == y@,
        Some(x) => b == Some(x),
    }
}

/// A copy of a recorded operation.
pub fn copy_operation(op: &Option<Operation>) -> (r: Option<Operation>)
    ensures
        same_operation(r, *op),
{
    match op {
        None => None,
        Some(Operation::Add(v)) => Some(Operation::Add(v.clone())),
        Some(Operation::Sub(l, r)) => Some(Operation::Sub(*l, *r)),
        Some(Operation::Mul(l, r)) => Some(Operation::Mul(*l, *r)),
        Some(Operation::Pow(x)) => Some(Operation::Pow(*x)),
        Some(Operation::Sum(x)) => Some(Operation::Sum(*x)),
        Some(Operation::Concat(v)) => Some(Operation::Concat(v.clone())),
        Some(Operation::ReLU(x)) => Some(Operation::ReLU(*x)),
    }
}

/// The summed buffer lengths of the tensors named by `refs`.
pub open spec fn total_len(nodes: Seq<Node>, refs: Seq<TensorRef>) -> int
    decreases refs.len(),
{
    if refs.len() == 0 {
        0
    } else {
        total_len(nodes, refs.drop_last()) + nodes[refs.last() as int].len
    }
}

/// Whether the shape that `n` records agrees with what its operation makes of its operands.
pub open spec fn shape_follows_operation(nodes: Seq<Node>, n: Node) -> bool {
    match n.operation {
        None => true,
        Some(Operation::Add(v)) => v@.len() == 2 && forall|k: int|
            0 <= k < v@.len() ==> #[trigger] nodes[v@[k] as int].shape@ == n.shape@,
        Some(Operation::Sub(l, r)) => nodes[l as int].shape@ == n.shape@ && nodes[r as int].shape@
            == n.shape@,
        Some(Operation::Mul(l, r)) => nodes[l as int].shape@ == n.shape@ && nodes[r as int].shape@
            == n.shape@,
        Some(Operation::Pow(x)) => nodes[x as int].shape@ == n.shape@,
        Some(Operation::Sum(_)) => n.shape@ == seq![1usize],
        Some(Operation::Concat(v)) => n.shape@ == seq![n.len] && n.len == total_len(nodes, v@),
        Some(Operation::ReLU(x)) => nodes[x as int].shape@ == n.shape@,
    }
}

/// The invariant of the tensor at position `i`: its buffer length is the product of its shape,
/// its operands were issued before it, and its shape follows from its operation.
pub open spec fn node_wf(nodes: Seq<Node>, i: int) -> bool {
    let n = nodes[i];
    &&& n.len as int == product(n.shape@)
    &&& forall|k: int|
        0 <= k < operands(n.operation).len() ==> #[trigger] operands(n.operation)[k] < i
    &&& shape_follows_operation(nodes, n)
}

pub proof fn lemma_total_len_push(nodes: Seq<Node>, x: Node, refs: Seq<TensorRef>)
    requires
        forall|k: int| 0 <= k < refs.len() ==> #[trigger] refs[k] < nodes.len(),
    ensures
        total_len(nodes.push(x), refs) == total_len(nodes, refs),
    decreases refs.len(),
{
    if refs.len() > 0 {
        let d = refs.drop_last();
        assert forall|k: int| 0 <= k < d.len() implies #[trigger] d[k] < nodes.len() by {
            assert(d[k] == refs[k]);
        }
        lemma_total_len_push(nodes, x, d);
    }
}

/// A prefix of a list of handles never sums to more than the whole list.
pub proof fn lemma_total_len_prefix(nodes: Seq<Node>, refs: Seq<TensorRef>, k: int)
    requires
        0 <= k <= refs.len(),
    ensures
        0 <= total_len(nodes, refs.take(k)) <= total_len(nodes, refs),
    decreases refs.len() - k,
{
    if k < refs.len() {
        lemma_total_len_prefix(nodes, refs, k + 1);
        assert(refs.take(k + 1).drop_last() =~= refs.take(k));
        lemma_total_len_nonneg(nodes, refs.take(k));
    } else {
        assert(refs.take(k) =~= refs);
        lemma_total_len_nonneg(nodes, refs);
    }
}

pub proof fn lemma_total_len_nonneg(nodes: Seq<Node>, refs: Seq<TensorRef>)
    ensures
        total_len(nodes, refs) >= 0,
    decreases refs.len(),
{
    if refs.len() > 0 {
        lemma_total_len_nonneg(nodes, refs.drop_last());
    }
}

/// Once a shape holds a zero, it describes no elements.
pub proof fn lemma_product_zero(s: Seq<usize>, j: int)
    requires
        0 <= j < s.len(),
        s[j] == 0,
    ensures
        product(s) == 0,
    decreases s.len(),
{
    let a = product(s.drop_last());
    let b = s.last() as int;
    if j < s.len() - 1 {
        assert(s.drop_last()[j] == s[j]);
        lemma_product_zero(s.drop_last(), j);
        assert(a * b == 0) by (nonlinear_arith)
            requires
                a == 0,
        ;
    } else {
        assert(a * b == 0) by (nonlinear_arith)
            requires
                b == 0,
        ;
    }
}

/// Over a shape without zeros, a longer prefix has at least as many elements.
pub proof fn lemma_product_prefix(s: Seq<usize>, k: int)
    requires
        0 <= k <= s.len(),
        forall|j: int| 0 <= j < s.len() ==> s[j] >= 1,
    ensures
        1 <= product(s.take(k)) <= product(s),
    decreases s.len() - k,
{
    if k < s.len() {
        lemma_product_prefix(s, k + 1);
        let p = s.take(k + 1);
        assert(p.drop_last() =~= s.take(k));
        let a = product(s.take(k));
        let b = s[k] as int;
        assert(product(p) == a * b);
        lemma_product_positive(s.take(k));
        assert(a <= a * b) by (nonlinear_arith)
            requires
                a >= 1,
                b >= 1,
        ;
    } else {
        assert(s.take(k) =~= s);
        lemma_product_positive(s);
    }
}

pub proof fn lemma_product_positive(s: Seq<usize>)
    requires
        forall|j: int| 0 <= j < s.len() ==> s[j] >= 1,
    ensures
        product(s) >= 1,
    decreases s.len(),
{
    if s.len() > 0 {
        lemma_product_positive(s.drop_last());
        let a = product(s.drop_last());
        let b = s.last() as int;
        assert(a * b >= 1) by (nonlinear_arith)
            requires
                a >= 1,
                b >= 1,
        ;
    }
}

/// The number of elements of `shape`, or `None` when it exceeds `usize::MAX`.
pub fn checked_product(shape: &Vec<usize>) -> (r: Option<usize>)
    ensures
        r matches Some(p) ==> p as int == product(shape@),
        r is None ==> product(shape@) > usize::MAX,
{
    let mut j: usize = 0;
    while j < shape.len()
        invariant
            j <= shape@.len(),
            forall|k: int| 0 <= k < j ==> shape@[k] != 0,
        decreases shape@.len() - j,
    {
        if shape[j] == 0 {
            proof {
                lemma_product_zero(shape@, j as int);
            }
            return Some(0);
        }
        j = j + 1;
    }
    let mut acc: usize = 1;
    let mut i: usize = 0;
    while i < shape.len()
        invariant
            i <= shape@.len(),
            forall|k: int| 0 <= k < shape@.len() ==> shape@[k] >= 1,
            acc as int == product(shape@.take(i as int)),
        decreases shape@.len() - i,
    {
        proof {
            assert(shape@.take(i + 1).drop_last() =~= shape@.take(i as int));
        }
        match acc.checked_mul(shape[i]) {
            Some(p) => {
                acc = p;
            },
            None => {
                proof {
                    lemma_product_prefix(shape@, i + 1);
                }
                return None;
            },
        }
        i = i + 1;
    }
    proof {
        assert(shape@.take(i as int) =~= shape@);
    }
    Some(acc)
}

} // verus!
