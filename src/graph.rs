use vstd::prelude::*;
use crate::activation::ActivationFunction;
use crate::tensor::{
    checked_product, lemma_total_len_prefix, lemma_total_len_push, node_wf, operands, product,
    total_len, EngineError, Node, Operation, TensorRef,
};

verus! {

/// The append-only arena of a computation graph: for every tensor ever produced, its shape and
/// the operation that produced it. A handle is a position in the arena; it is issued in creation
/// order and never reused, so an operation only names tensors created before it.
pub struct Graph {
    nodes: Vec<Node>,
}

impl View for Graph {
    type V = Seq<Node>;

    closed spec fn view(&self) -> Seq<Node> {
        self.nodes@
    }
}

/// `new` is `old` with one more tensor at its end.
pub open spec fn appended(old: Seq<Node>, new: Seq<Node>) -> bool {
    new.len() == old.len() + 1 && new.drop_last() == old
}

/// The outcome of an operation with two operands of equal shape: `InvalidRef` for a handle
/// that was never issued, `ShapeMismatch` for operands whose shapes differ.
pub open spec fn binary_outcome(nodes: Seq<Node>, l: TensorRef, r: TensorRef) -> Result<
    (),
    EngineError,
> {
    if l >= nodes.len() || r >= nodes.len() {
        Err(EngineError::InvalidRef)
    } else if nodes[l as int].shape@ != nodes[r as int].shape@ {
        Err(EngineError::ShapeMismatch)
    } else {
        Ok(())
    }
}

/// Whether every handle in `refs` was issued.
pub open spec fn all_valid(nodes: Seq<Node>, refs: Seq<TensorRef>) -> bool {
    forall|k: int| 0 <= k < refs.len() ==> #[trigger] refs[k] < nodes.len()
}

/// The outcome of recomputing `out` in place from two operands elementwise: `InvalidRef` for a
/// handle never issued, `ShapeMismatch` unless both operands have the shape `out` records.
pub open spec fn elementwise_inplace_outcome(
    nodes: Seq<Node>,
    l: TensorRef,
    r: TensorRef,
    out: TensorRef,
) -> Result<(), EngineError> {
    if l >= nodes.len() || r >= nodes.len() || out >= nodes.len() {
        Err(EngineError::InvalidRef)
    } else if nodes[l as int].shape@ != nodes[out as int].shape@ || nodes[r as int].shape@
        != nodes[out as int].shape@ {
        Err(EngineError::ShapeMismatch)
    } else {
        Ok(())
    }
}

/// The outcome of recomputing the total of `x` into `out`, which must be a one-element tensor.
pub open spec fn sum_inplace_outcome(nodes: Seq<Node>, x: TensorRef, out: TensorRef) -> Result<
    (),
    EngineError,
> {
    if x >= nodes.len() || out >= nodes.len() {
        Err(EngineError::InvalidRef)
    } else if nodes[out as int].shape@ != seq![1usize] {
        Err(EngineError::ShapeMismatch)
    } else {
        Ok(())
    }
}

/// The outcome of recomputing `out` in place as an activation of `x`.
pub open spec fn activation_inplace_outcome(
    nodes: Seq<Node>,
    kind: ActivationFunction,
    x: TensorRef,
    out: TensorRef,
) -> Result<(), EngineError> {
    if x >= nodes.len() || out >= nodes.len() {
        Err(EngineError::InvalidRef)
    } else if nodes[x as int].shape@ != nodes[out as int].shape@ {
        Err(EngineError::ShapeMismatch)
    } else if kind != ActivationFunction::ReLU {
        Err(EngineError::UnsupportedOperation)
    } else {
        Ok(())
    }
}

/// The outcome of recomputing `out` in place as the concatenation of `refs`: its shape must be
/// the one-dimensional shape of their summed lengths.
pub open spec fn concat_inplace_outcome(
    nodes: Seq<Node>,
    refs: Seq<TensorRef>,
    out: TensorRef,
) -> Result<(), EngineError> {
    if !all_valid(nodes, refs) || out >= nodes.len() {
        Err(EngineError::InvalidRef)
    } else if nodes[out as int].shape@.len() != 1 || nodes[out as int].shape@[0] != total_len(
        nodes,
        refs,
    ) {
        Err(EngineError::ShapeMismatch)
    } else {
        Ok(())
    }
}

/// The outcome of computing the dot product of `l` and `r` into the existing one-element tensor
/// `out`.
pub open spec fn dot_inplace_outcome(
    nodes: Seq<Node>,
    l: TensorRef,
    r: TensorRef,
    out: TensorRef,
) -> Result<(), EngineError> {
    if l >= nodes.len() || r >= nodes.len() || out >= nodes.len() {
        Err(EngineError::InvalidRef)
    } else if nodes[l as int].shape@ != nodes[r as int].shape@ || nodes[out as int].shape@
        != seq![1usize] {
        Err(EngineError::ShapeMismatch)
    } else {
        Ok(())
    }
}

/// `new` is `old` with one tensor appended that records `op` and has the given shape and length.
pub open spec fn appended_derived(
    old: Seq<Node>,
    new: Seq<Node>,
    h: TensorRef,
    shape: Seq<usize>,
    len: int,
) -> bool {
    &&& h == old.len()
    &&& appended(old, new)
    &&& new[h as int].shape@ == shape
    &&& new[h as int].len == len
}

proof fn lemma_push_wf(nodes: Seq<Node>, x: Node)
    requires
        forall|i: int| 0 <= i < nodes.len() ==> #[trigger] node_wf(nodes, i),
        node_wf(nodes.push(x), nodes.len() as int),
    ensures
        forall|i: int| 0 <= i < nodes.len() + 1 ==> #[trigger] node_wf(nodes.push(x), i),
{
    let p = nodes.push(x);
    assert forall|i: int| 0 <= i < nodes.len() + 1 implies #[trigger] node_wf(p, i) by {
        if i < nodes.len() {
            assert(node_wf(nodes, i));
            let n = nodes[i];
            assert(p[i] == n);
            let ops = operands(n.operation);
            assert forall|k: int| 0 <= k < ops.len() implies p[ops[k] as int] == nodes[ops[k] as int] by {
                assert(ops[k] < i);
            }
            match n.operation {
                Some(Operation::Add(v)) => {
                    assert forall|k: int| 0 <= k < v@.len() implies #[trigger] p[v@[k] as int].shape@
                        == n.shape@ by {
                        assert(ops[k] == v@[k]);
                    }
                },
                Some(Operation::Concat(v)) => {
                    assert forall|k: int| 0 <= k < v@.len() implies #[trigger] v@[k] < nodes.len() by {
                        assert(ops[k] == v@[k]);
                        assert(ops[k] < i);
                    }
                    lemma_total_len_push(nodes, x, v@);
                },
                Some(Operation::Sub(l, r)) => {
                    assert(ops[0] == l && ops[1] == r);
                },
                Some(Operation::Mul(l, r)) => {
                    assert(ops[0] == l && ops[1] == r);
                },
                Some(Operation::Pow(a)) => {
                    assert(ops[0] == a);
                },
                Some(Operation::ReLU(a)) => {
                    assert(ops[0] == a);
                },
                _ => {},
            }
        }
    }
}

impl Graph {
    /// The invariant of every tensor in the arena (see [`node_wf`]).
    pub open spec fn wf(&self) -> bool {
        forall|i: int| 0 <= i < self@.len() ==> #[trigger] node_wf(self@, i)
    }

    /// An empty arena.
    pub fn new() -> (r: Graph)
        ensures
            r.wf(),
            r@.len() == 0,
    {
        Graph { nodes: Vec::new() }
    }

    /// The number of tensors issued so far.
    pub fn len(&self) -> (r: usize)
        ensures
            r == self@.len(),
    {
        self.nodes.len()
    }

    /// What the arena records of tensor `h`; `InvalidRef` for a handle never issued.
    pub fn node(&self, h: TensorRef) -> (r: Result<&Node, EngineError>)
        ensures
            r.is_ok() <==> h < self@.len(),
            r matches Ok(n) ==> *n == self@[h as int],
            r matches Err(e) ==> e == EngineError::InvalidRef,
    {
        if h < self.nodes.len() {
            Ok(&self.nodes[h])
        } else {
            Err(EngineError::InvalidRef)
        }
    }

    /// Checks that a buffer of `len` values fits tensor `h`, as `set_data` and `set_grad` need.
    pub fn check_len(&self, h: TensorRef, len: usize) -> (r: Result<(), EngineError>)
        ensures
            h >= self@.len() ==> r == Err::<(), EngineError>(EngineError::InvalidRef),
            h < self@.len() && len != self@[h as int].len ==> r == Err::<(), EngineError>(
                EngineError::ShapeMismatch,
            ),
            h < self@.len() && len == self@[h as int].len ==> r is Ok,
    {
        if h >= self.nodes.len() {
            Err(EngineError::InvalidRef)
        } else if self.nodes[h].len != len {
            Err(EngineError::ShapeMismatch)
        } else {
            Ok(())
        }
    }

    fn push_node(&mut self, x: Node) -> (h: TensorRef)
        requires
            old(self).wf(),
            node_wf(old(self)@.push(x), old(self)@.len() as int),
            old(self)@.len() < usize::MAX,
        ensures
            final(self).wf(),
            final(self)@ == old(self)@.push(x),
            h == old(self)@.len(),
    {
        proof {
            lemma_push_wf(self@, x);
        }
        let h = self.nodes.len();
        self.nodes.push(x);
        h
    }

    fn same_shape(&self, a: TensorRef, b: TensorRef) -> (r: bool)
        requires
            a < self@.len(),
            b < self@.len(),
        ensures
            r <==> self@[a as int].shape@ == self@[b as int].shape@,
    {
        let sa = &self.nodes[a].shape;
        let sb = &self.nodes[b].shape;
        if sa.len() != sb.len() {
            return false;
        }
        let mut i: usize = 0;
        while i < sa.len()
            invariant
                i <= sa@.len(),
                sa@.len() == sb@.len(),
                sa@ == self@[a as int].shape@,
                sb@ == self@[b as int].shape@,
                forall|k: int| 0 <= k < i ==> sa@[k] == sb@[k],
            decreases sa@.len() - i,
        {
            if sa[i] != sb[i] {
                return false;
            }
            i = i + 1;
        }
        assert(sa@ =~= sb@);
        true
    }

    fn copy_shape(&self, a: TensorRef) -> (r: Vec<usize>)
        requires
            a < self@.len(),
        ensures
            r@ == self@[a as int].shape@,
    {
        self.nodes[a].shape.clone()
    }

    fn check_binary(&self, l: TensorRef, r: TensorRef) -> (res: Result<(), EngineError>)
        ensures
            res == binary_outcome(self@, l, r),
    {
        if l >= self.nodes.len() || r >= self.nodes.len() {
            Err(EngineError::InvalidRef)
        } else if !self.same_shape(l, r) {
            Err(EngineError::ShapeMismatch)
        } else {
            Ok(())
        }
    }

    /// Appends a leaf tensor with the given shape whose buffer holds `data_len` values;
    /// `ShapeMismatch` unless `data_len` is the product of the shape.
    pub fn new_tensor(&mut self, shape: Vec<usize>, data_len: usize) -> (r: Result<
        TensorRef,
        EngineError,
    >)
        requires
            old(self).wf(),
            old(self)@.len() < usize::MAX,
        ensures
            final(self).wf(),
            r.is_ok() <==> data_len == product(shape@),
            r matches Ok(h) ==> {
                &&& h == old(self)@.len()
                &&& appended(old(self)@, final(self)@)
                &&& final(self)@[h as int].shape@ == shape@
                &&& final(self)@[h as int].len == data_len
                &&& final(self)@[h as int].operation is None
            },
            r matches Err(e) ==> e == EngineError::ShapeMismatch && final(self)@ == old(self)@,
    {
        match checked_product(&shape) {
            Some(p) => {
                if p != data_len {
                    return Err(EngineError::ShapeMismatch);
                }
            },
            None => {
                return Err(EngineError::ShapeMismatch);
            },
        }
        let x = Node { shape, len: data_len, operation: None };
        let h = self.push_node(x);
        proof {
            assert(final(self)@.drop_last() =~= old(self)@);
        }
        Ok(h)
    }

    fn append_derived(&mut self, shape: Vec<usize>, len: usize, op: Operation) -> (h: TensorRef)
        requires
            old(self).wf(),
            old(self)@.len() < usize::MAX,
            node_wf(
                old(self)@.push(Node { shape: shape, len: len, operation: Some(op) }),
                old(self)@.len() as int,
            ),
        ensures
            final(self).wf(),
            final(self)@ == old(self)@.push(Node { shape: shape, len: len, operation: Some(op) }),
            appended(old(self)@, final(self)@),
            h == old(self)@.len(),
    {
        let h = self.push_node(Node { shape, len, operation: Some(op) });
        proof {
            assert(final(self)@.drop_last() =~= old(self)@);
        }
        h
    }

    fn elementwise(&mut self, l: TensorRef, r: TensorRef, op: Operation) -> (res: Result<
        TensorRef,
        EngineError,
    >)
        requires
            old(self).wf(),
            old(self)@.len() < usize::MAX,
            operands(Some(op)) == seq![l, r],
            op is Add || op is Sub || op is Mul,
        ensures
            final(self).wf(),
            res.is_ok() <==> binary_outcome(old(self)@, l, r) is Ok,
            res matches Err(e) ==> binary_outcome(old(self)@, l, r) == Err::<(), EngineError>(e)
                && final(self)@ == old(self)@,
            res matches Ok(h) ==> {
                &&& appended_derived(
                    old(self)@,
                    final(self)@,
                    h,
                    old(self)@[l as int].shape@,
                    old(self)@[l as int].len as int,
                )
                &&& final(self)@[h as int].operation == Some(op)
            },
    {
        match self.check_binary(l, r) {
            Err(e) => {
                return Err(e);
            },
            Ok(()) => {},
        }
        let shape = self.copy_shape(l);
        let len = self.nodes[l].len;
        proof {
            let x = Node { shape: shape, len: len, operation: Some(op) };
            let p = self@.push(x);
            assert(node_wf(self@, l as int));
            assert(p[l as int] == self@[l as int]);
            assert(p[r as int] == self@[r as int]);
            match op {
                Operation::Add(ref v) => {
                    assert(v@ == seq![l, r]);
                    assert forall|k: int| 0 <= k < v@.len() implies #[trigger] p[v@[k] as int].shape@
                        == x.shape@ by {
                        if k == 0 {
                            assert(v@[k] == l);
                        } else {
                            assert(v@[k] == r);
                        }
                    }
                },
                _ => {},
            }
        }
        Ok(self.append_derived(shape, len, op))
    }

    /// Appends the elementwise sum of `l` and `r`, which must have equal shapes.
    pub fn add(&mut self, l: TensorRef, r: TensorRef) -> (res: Result<TensorRef, EngineError>)
        requires
            old(self).wf(),
            old(self)@.len() < usize::MAX,
        ensures
            final(self).wf(),
            res.is_ok() <==> binary_outcome(old(self)@, l, r) is Ok,
            res matches Err(e) ==> binary_outcome(old(self)@, l, r) == Err::<(), EngineError>(e)
                && final(self)@ == old(self)@,
            res matches Ok(h) ==> {
                &&& appended_derived(
                    old(self)@,
                    final(self)@,
                    h,
                    old(self)@[l as int].shape@,
                    old(self)@[l as int].len as int,
                )
                &&& final(self)@[h as int].operation matches Some(Operation::Add(_))
                &&& operands(final(self)@[h as int].operation) == seq![l, r]
            },
    {
        let v = vec![l, r];
        self.elementwise(l, r, Operation::Add(v))
    }

    /// Appends the elementwise difference `l - r` of two tensors of equal shape.
    pub fn sub(&mut self, l: TensorRef, r: TensorRef) -> (res: Result<TensorRef, EngineError>)
        requires
            old(self).wf(),
            old(self)@.len() < usize::MAX,
        ensures
            final(self).wf(),
            res.is_ok() <==> binary_outcome(old(self)@, l, r) is Ok,
            res matches Err(e) ==> binary_outcome(old(self)@, l, r) == Err::<(), EngineError>(e)
                && final(self)@ == old(self)@,
            res matches Ok(h) ==> {
                &&& appended_derived(
                    old(self)@,
                    final(self)@,
                    h,
                    old(self)@[l as int].shape@,
                    old(self)@[l as int].len as int,
                )
                &&& final(self)@[h as int].operation == Some(Operation::Sub(l, r))
            },
    {
        self.elementwise(l, r, Operation::Sub(l, r))
    }

    /// Appends the elementwise product of two tensors of equal shape.
    pub fn mul(&mut self, l: TensorRef, r: TensorRef) -> (res: Result<TensorRef, EngineError>)
        requires
            old(self).wf(),
            old(self)@.len() < usize::MAX,
        ensures
            final(self).wf(),
            res.is_ok() <==> binary_outcome(old(self)@, l, r) is Ok,
            res matches Err(e) ==> binary_outcome(old(self)@, l, r) == Err::<(), EngineError>(e)
                && final(self)@ == old(self)@,
            res matches Ok(h) ==> {
                &&& appended_derived(
                    old(self)@,
                    final(self)@,
                    h,
                    old(self)@[l as int].shape@,
                    old(self)@[l as int].len as int,
                )
                &&& final(self)@[h as int].operation == Some(Operation::Mul(l, r))
            },
    {
        self.elementwise(l, r, Operation::Mul(l, r))
    }

    fn unary(&mut self, x: TensorRef, op: Operation) -> (res: Result<TensorRef, EngineError>)
        requires
            old(self).wf(),
            old(self)@.len() < usize::MAX,
            op == Operation::Pow(x) || op == Operation::ReLU(x),
        ensures
            final(self).wf(),
            res.is_ok() <==> x < old(self)@.len(),
            res matches Err(e) ==> e == EngineError::InvalidRef && final(self)@ == old(self)@,
            res matches Ok(h) ==> {
                &&& appended_derived(
                    old(self)@,
                    final(self)@,
                    h,
                    old(self)@[x as int].shape@,
                    old(self)@[x as int].len as int,
                )
                &&& final(self)@[h as int].operation == Some(op)
            },
    {
        if x >= self.nodes.len() {
            return Err(EngineError::InvalidRef);
        }
        let shape = self.copy_shape(x);
        let len = self.nodes[x].len;
        proof {
            assert(node_wf(self@, x as int));
            assert(self@.push(Node { shape: shape, len: len, operation: Some(op) })[x as int]
                == self@[x as int]);
        }
        Ok(self.append_derived(shape, len, op))
    }

    /// Appends `x` raised elementwise to a power; the exponent is kept with the values.
    pub fn pow(&mut self, x: TensorRef) -> (res: Result<TensorRef, EngineError>)
        requires
            old(self).wf(),
            old(self)@.len() < usize::MAX,
        ensures
            final(self).wf(),
            res.is_ok() <==> x < old(self)@.len(),
            res matches Err(e) ==> e == EngineError::InvalidRef && final(self)@ == old(self)@,
            res matches Ok(h) ==> {
                &&& appended_derived(
                    old(self)@,
                    final(self)@,
                    h,
                    old(self)@[x as int].shape@,
                    old(self)@[x as int].len as int,
                )
                &&& final(self)@[h as int].operation == Some(Operation::Pow(x))
            },
    {
        self.unary(x, Operation::Pow(x))
    }

    /// Appends the activation `kind` of `x`. Only `ReLU` has a forward and backward rule: any
    /// other kind is `UnsupportedOperation`.
    pub fn apply(&mut self, kind: ActivationFunction, x: TensorRef) -> (res: Result<
        TensorRef,
        EngineError,
    >)
        requires
            old(self).wf(),
            old(self)@.len() < usize::MAX,
        ensures
            final(self).wf(),
            res.is_ok() <==> x < old(self)@.len() && kind == ActivationFunction::ReLU,
            res matches Err(e) ==> final(self)@ == old(self)@ && (if x >= old(self)@.len() {
                e == EngineError::InvalidRef
            } else {
                e == EngineError::UnsupportedOperation
            }),
            res matches Ok(h) ==> {
                &&& appended_derived(
                    old(self)@,
                    final(self)@,
                    h,
                    old(self)@[x as int].shape@,
                    old(self)@[x as int].len as int,
                )
                &&& final(self)@[h as int].operation == Some(Operation::ReLU(x))
            },
    {
        if x >= self.nodes.len() {
            return Err(EngineError::InvalidRef);
        }
        match kind {
            ActivationFunction::ReLU => self.unary(x, Operation::ReLU(x)),
            _ => Err(EngineError::UnsupportedOperation),
        }
    }

    /// Appends the one-element tensor that holds the total of `x`.
    pub fn sum(&mut self, x: TensorRef) -> (res: Result<TensorRef, EngineError>)
        requires
            old(self).wf(),
            old(self)@.len() < usize::MAX,
        ensures
            final(self).wf(),
            res.is_ok() <==> x < old(self)@.len(),
            res matches Err(e) ==> e == EngineError::InvalidRef && final(self)@ == old(self)@,
            res matches Ok(h) ==> {
                &&& appended_derived(old(self)@, final(self)@, h, seq![1usize], 1)
                &&& final(self)@[h as int].operation == Some(Operation::Sum(x))
            },
    {
        if x >= self.nodes.len() {
            return Err(EngineError::InvalidRef);
        }
        let shape = vec![1usize];
        proof {
            assert(shape@.drop_last() =~= Seq::<usize>::empty());
            assert(product(Seq::<usize>::empty()) == 1);
            assert(shape@ =~= seq![1usize]);
            assert(product(shape@) == 1);
        }
        Ok(self.append_derived(shape, 1, Operation::Sum(x)))
    }

    /// The summed lengths of the tensors in `refs`, or `None` when a handle was never issued
    /// or the sum exceeds `usize::MAX`.
    fn checked_total(&self, refs: &Vec<TensorRef>) -> (r: Option<usize>)
        ensures
            r is None ==> !all_valid(self@, refs@) || total_len(self@, refs@) > usize::MAX,
            r matches Some(t) ==> all_valid(self@, refs@) && t as int == total_len(self@, refs@),
    {
        let mut acc: usize = 0;
        let mut i: usize = 0;
        while i < refs.len()
            invariant
                i <= refs@.len(),
                all_valid(self@, refs@.take(i as int)),
                acc as int == total_len(self@, refs@.take(i as int)),
            decreases refs@.len() - i,
        {
            let h = refs[i];
            if h >= self.nodes.len() {
                return None;
            }
            proof {
                assert(refs@.take(i + 1).drop_last() =~= refs@.take(i as int));
                assert(refs@.take(i + 1)[i as int] == h);
            }
            match acc.checked_add(self.nodes[h].len) {
                Some(t) => {
                    acc = t;
                },
                None => {
                    proof {
                        assert(all_valid(self@, refs@.take(i + 1))) by {
                            assert forall|k: int| 0 <= k < i + 1 implies #[trigger] refs@.take(
                                i + 1,
                            )[k] < self@.len() by {
                                if k < i {
                                    assert(refs@.take(i + 1)[k] == refs@.take(i as int)[k]);
                                }
                            }
                        }
                        if all_valid(self@, refs@) {
                            lemma_total_len_prefix(self@, refs@, i + 1);
                        }
                    }
                    return None;
                },
            }
            proof {
                assert forall|k: int| 0 <= k < i + 1 implies #[trigger] refs@.take(i + 1)[k]
                    < self@.len() by {
                    if k < i {
                        assert(refs@.take(i + 1)[k] == refs@.take(i as int)[k]);
                    }
                }
            }
            i = i + 1;
        }
        proof {
            assert(refs@.take(i as int) =~= refs@);
        }
        Some(acc)
    }

    /// Appends the concatenation of `refs`, in order: a one-dimensional tensor whose length is
    /// the sum of theirs. `ShapeMismatch` when that sum exceeds `usize::MAX`.
    pub fn concat(&mut self, refs: Vec<TensorRef>) -> (res: Result<TensorRef, EngineError>)
        requires
            old(self).wf(),
            old(self)@.len() < usize::MAX,
        ensures
            final(self).wf(),
            res.is_ok() <==> all_valid(old(self)@, refs@) && total_len(old(self)@, refs@)
                <= usize::MAX,
            res matches Err(e) ==> final(self)@ == old(self)@ && (if all_valid(
                old(self)@,
                refs@,
            ) {
                e == EngineError::ShapeMismatch
            } else {
                e == EngineError::InvalidRef
            }),
            res matches Ok(h) ==> {
                let total = total_len(old(self)@, refs@);
                &&& appended_derived(old(self)@, final(self)@, h, seq![total as usize], total)
                &&& final(self)@[h as int].operation matches Some(Operation::Concat(_))
                &&& operands(final(self)@[h as int].operation) == refs@
            },
    {
        let total = match self.checked_total(&refs) {
            Some(t) => t,
            None => {
                let mut i: usize = 0;
                while i < refs.len()
                    invariant
                        i <= refs@.len(),
                        self.wf(),
                        self@ == old(self)@,
                        all_valid(self@, refs@.take(i as int)),
                    decreases refs@.len() - i,
                {
                    if refs[i] >= self.nodes.len() {
                        return Err(EngineError::InvalidRef);
                    }
                    proof {
                        assert forall|k: int| 0 <= k < i + 1 implies #[trigger] refs@.take(
                            i + 1,
                        )[k] < self@.len() by {
                            if k < i {
                                assert(refs@.take(i + 1)[k] == refs@.take(i as int)[k]);
                            }
                        }
                    }
                    i = i + 1;
                }
                proof {
                    assert(refs@.take(i as int) =~= refs@);
                }
                return Err(EngineError::ShapeMismatch);
            },
        };
        let shape = vec![total];
        proof {
            let x = Node { shape: shape, len: total, operation: Some(Operation::Concat(refs)) };
            assert(shape@.drop_last() =~= Seq::<usize>::empty());
            assert(product(Seq::<usize>::empty()) == 1);
            assert(shape@ =~= seq![total]);
            assert(product(shape@) == total);
            lemma_total_len_push(self@, x, refs@);
        }
        Ok(self.append_derived(shape, total, Operation::Concat(refs)))
    }

    /// Checks that `out` can be recomputed in place as the elementwise sum of `l` and `r`.
    pub fn add_inplace(&self, l: TensorRef, r: TensorRef, out: TensorRef) -> (res: Result<
        (),
        EngineError,
    >)
        ensures
            res == elementwise_inplace_outcome(self@, l, r, out),
    {
        self.check_elementwise_inplace(l, r, out)
    }

    /// Checks that `out` can be recomputed in place as the elementwise difference `l - r`.
    pub fn sub_inplace(&self, l: TensorRef, r: TensorRef, out: TensorRef) -> (res: Result<
        (),
        EngineError,
    >)
        ensures
            res == elementwise_inplace_outcome(self@, l, r, out),
    {
        self.check_elementwise_inplace(l, r, out)
    }

    /// Checks that `out` can be recomputed in place as the elementwise product of `l` and `r`.
    pub fn mul_inplace(&self, l: TensorRef, r: TensorRef, out: TensorRef) -> (res: Result<
        (),
        EngineError,
    >)
        ensures
            res == elementwise_inplace_outcome(self@, l, r, out),
    {
        self.check_elementwise_inplace(l, r, out)
    }

    fn check_elementwise_inplace(&self, l: TensorRef, r: TensorRef, out: TensorRef) -> (res:
        Result<(), EngineError>)
        ensures
            res == elementwise_inplace_outcome(self@, l, r, out),
    {
        let n = self.nodes.len();
        if l >= n || r >= n || out >= n {
            Err(EngineError::InvalidRef)
        } else if !self.same_shape(l, out) || !self.same_shape(r, out) {
            Err(EngineError::ShapeMismatch)
        } else {
            Ok(())
        }
    }

    /// Checks that `out` can be recomputed in place as the total of `x`.
    pub fn sum_inplace(&self, x: TensorRef, out: TensorRef) -> (res: Result<(), EngineError>)
        ensures
            res == sum_inplace_outcome(self@, x, out),
    {
        let n = self.nodes.len();
        if x >= n || out >= n {
            return Err(EngineError::InvalidRef);
        }
        let s = &self.nodes[out].shape;
        if s.len() == 1 && s[0] == 1 {
            proof {
                assert(s@ =~= seq![1usize]);
            }
            Ok(())
        } else {
            Err(EngineError::ShapeMismatch)
        }
    }

    /// Prepares the dot product of `l` and `r` into the existing one-element tensor `out`: after
    /// the checks, appends their elementwise product, whose total then goes into `out` in place.
    pub fn dot_product_inplace(&mut self, l: TensorRef, r: TensorRef, out: TensorRef) -> (res:
        Result<TensorRef, EngineError>)
        requires
            old(self).wf(),
            old(self)@.len() < usize::MAX,
        ensures
            final(self).wf(),
            res.is_ok() <==> dot_inplace_outcome(old(self)@, l, r, out) is Ok,
            res matches Err(e) ==> dot_inplace_outcome(old(self)@, l, r, out) == Err::<
                (),
                EngineError,
            >(e) && final(self)@ == old(self)@,
            res matches Ok(m) ==> {
                &&& appended_derived(
                    old(self)@,
                    final(self)@,
                    m,
                    old(self)@[l as int].shape@,
                    old(self)@[l as int].len as int,
                )
                &&& final(self)@[m as int].operation == Some(Operation::Mul(l, r))
            },
    {
        if out >= self.nodes.len() {
            return Err(EngineError::InvalidRef);
        }
        match self.check_binary(l, r) {
            Err(e) => {
                return Err(e);
            },
            Ok(()) => {},
        }
        match self.sum_inplace(l, out) {
            Err(e) => {
                return Err(e);
            },
            Ok(()) => {},
        }
        self.mul(l, r)
    }

    /// Checks that `out` can be recomputed in place as the activation `kind` of `x`.
    pub fn apply_inplace(&self, kind: ActivationFunction, x: TensorRef, out: TensorRef) -> (res:
        Result<(), EngineError>)
        ensures
            res == activation_inplace_outcome(self@, kind, x, out),
    {
        let n = self.nodes.len();
        if x >= n || out >= n {
            Err(EngineError::InvalidRef)
        } else if !self.same_shape(x, out) {
            Err(EngineError::ShapeMismatch)
        } else {
            match kind {
                ActivationFunction::ReLU => Ok(()),
                _ => Err(EngineError::UnsupportedOperation),
            }
        }
    }

    /// Checks that `out` can be recomputed in place as the concatenation of `refs`.
    pub fn concat_inplace(&self, refs: &Vec<TensorRef>, out: TensorRef) -> (res: Result<
        (),
        EngineError,
    >)
        ensures
            res == concat_inplace_outcome(self@, refs@, out),
    {
        let mut i: usize = 0;
        while i < refs.len()
            invariant
                i <= refs@.len(),
                all_valid(self@, refs@.take(i as int)),
            decreases refs@.len() - i,
        {
            if refs[i] >= self.nodes.len() {
                return Err(EngineError::InvalidRef);
            }
            proof {
                assert forall|k: int| 0 <= k < i + 1 implies #[trigger] refs@.take(i + 1)[k]
                    < self@.len() by {
                    if k < i {
                        assert(refs@.take(i + 1)[k] == refs@.take(i as int)[k]);
                    }
                }
            }
            i = i + 1;
        }
        proof {
            assert(refs@.take(i as int) =~= refs@);
        }
        if out >= self.nodes.len() {
            return Err(EngineError::InvalidRef);
        }
        let s = &self.nodes[out].shape;
        if s.len() != 1 {
            return Err(EngineError::ShapeMismatch);
        }
        match self.checked_total(refs) {
            Some(t) => {
                if s[0] == t {
                    Ok(())
                } else {
                    Err(EngineError::ShapeMismatch)
                }
            },
            None => Err(EngineError::ShapeMismatch),
        }
    }
}

} // verus!
