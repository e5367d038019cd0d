use tensorgraph::activation::ActivationFunction;
use tensorgraph::backward::{GradRule, Route};
use tensorgraph::graph::Graph;
use tensorgraph::tensor::{checked_product, EngineError, Operation};

fn route(target: usize, rule: GradRule) -> Route {
    Route { target, rule }
}

#[test]
fn new_tensor_checks_length_against_shape() {
    let mut g = Graph::new();
    assert_eq!(g.new_tensor(vec![2, 3], 6), Ok(0));
    assert_eq!(g.new_tensor(vec![2, 3], 5), Err(EngineError::ShapeMismatch));
    assert_eq!(g.new_tensor(vec![4], 4), Ok(1));
    assert_eq!(g.len(), 2);
    let n = g.node(0).unwrap();
    assert_eq!(n.shape, vec![2, 3]);
    assert_eq!(n.len, 6);
    assert_eq!(n.operation, None);
}

#[test]
fn shape_with_zero_holds_nothing() {
    let mut g = Graph::new();
    assert_eq!(g.new_tensor(vec![3, 0, 5], 0), Ok(0));
    assert_eq!(g.new_tensor(vec![usize::MAX, 0], 0), Ok(1));
    assert_eq!(g.new_tensor(vec![usize::MAX, 2], 0), Err(EngineError::ShapeMismatch));
    assert_eq!(checked_product(&vec![usize::MAX, 2]), None);
    assert_eq!(checked_product(&vec![]), Some(1));
    assert_eq!(checked_product(&vec![28, 28]), Some(784));
}

#[test]
fn unknown_handle_is_invalid_ref() {
    let mut g = Graph::new();
    g.new_tensor(vec![1], 1).unwrap();
    assert_eq!(g.node(1).err(), Some(EngineError::InvalidRef));
    assert_eq!(g.add(0, 1), Err(EngineError::InvalidRef));
    assert_eq!(g.sum(5), Err(EngineError::InvalidRef));
    assert_eq!(g.concat(vec![0, 3]), Err(EngineError::InvalidRef));
    assert_eq!(g.backward_order(1), Err(EngineError::InvalidRef));
    assert_eq!(g.grad_routes(1), Err(EngineError::InvalidRef));
    assert_eq!(g.len(), 1);
}

#[test]
fn elementwise_operands_must_share_shape() {
    let mut g = Graph::new();
    let a = g.new_tensor(vec![2], 2).unwrap();
    let b = g.new_tensor(vec![1, 2], 2).unwrap();
    assert_eq!(g.add(a, b), Err(EngineError::ShapeMismatch));
    assert_eq!(g.sub(a, b), Err(EngineError::ShapeMismatch));
    assert_eq!(g.mul(a, b), Err(EngineError::ShapeMismatch));
    assert_eq!(g.len(), 2);
}

#[test]
fn add_records_operands_and_passes_gradient() {
    let mut g = Graph::new();
    let a = g.new_tensor(vec![3], 3).unwrap();
    let b = g.new_tensor(vec![3], 3).unwrap();
    let c = g.add(a, b).unwrap();
    assert_eq!(c, 2);
    let n = g.node(c).unwrap();
    assert_eq!(n.shape, vec![3]);
    assert_eq!(n.operation, Some(Operation::Add(vec![a, b])));
    assert_eq!(
        g.grad_routes(c).unwrap(),
        vec![route(a, GradRule::Pass), route(b, GradRule::Pass)]
    );
    assert_eq!(g.backward_order(c).unwrap(), vec![c, b, a]);
}

#[test]
fn sub_negates_the_right_operand() {
    let mut g = Graph::new();
    let a = g.new_tensor(vec![2], 2).unwrap();
    let b = g.new_tensor(vec![2], 2).unwrap();
    let c = g.sub(a, b).unwrap();
    assert_eq!(g.node(c).unwrap().operation, Some(Operation::Sub(a, b)));
    assert_eq!(
        g.grad_routes(c).unwrap(),
        vec![route(a, GradRule::Pass), route(b, GradRule::Negate)]
    );
}

#[test]
fn mul_scales_by_the_other_operand() {
    let mut g = Graph::new();
    let t1 = g.new_tensor(vec![1], 1).unwrap();
    let t2 = g.new_tensor(vec![1], 1).unwrap();
    let t3 = g.mul(t1, t2).unwrap();
    assert_eq!(
        g.grad_routes(t3).unwrap(),
        vec![
            route(t1, GradRule::ScaleByDataOf(t2)),
            route(t2, GradRule::ScaleByDataOf(t1))
        ]
    );
    assert_eq!(g.backward_order(t3).unwrap(), vec![t3, t2, t1]);
}

#[test]
fn sum_is_one_element_and_broadcasts() {
    let mut g = Graph::new();
    let x = g.new_tensor(vec![2, 2], 4).unwrap();
    let s = g.sum(x).unwrap();
    let n = g.node(s).unwrap();
    assert_eq!(n.shape, vec![1]);
    assert_eq!(n.len, 1);
    assert_eq!(g.grad_routes(s).unwrap(), vec![route(x, GradRule::Broadcast)]);
}

#[test]
fn pow_and_relu_keep_shape() {
    let mut g = Graph::new();
    let x = g.new_tensor(vec![5], 5).unwrap();
    let p = g.pow(x).unwrap();
    let r = g.apply(ActivationFunction::ReLU, x).unwrap();
    assert_eq!(g.node(p).unwrap().shape, vec![5]);
    assert_eq!(g.node(r).unwrap().shape, vec![5]);
    assert_eq!(g.grad_routes(p).unwrap(), vec![route(x, GradRule::PowRule)]);
    assert_eq!(g.grad_routes(r).unwrap(), vec![route(x, GradRule::ReluGate)]);
}

#[test]
fn activation_without_rule_is_unsupported() {
    let mut g = Graph::new();
    let x = g.new_tensor(vec![2], 2).unwrap();
    assert_eq!(
        g.apply(ActivationFunction::Sigmoid, x),
        Err(EngineError::UnsupportedOperation)
    );
    assert_eq!(
        g.apply(ActivationFunction::Softmax, x),
        Err(EngineError::UnsupportedOperation)
    );
    assert_eq!(g.apply(ActivationFunction::Tanh, 9), Err(EngineError::InvalidRef));
    assert_eq!(g.len(), 1);
}

#[test]
fn concat_of_two_three_four_slices_gradient() {
    let mut g = Graph::new();
    let a = g.new_tensor(vec![2], 2).unwrap();
    let b = g.new_tensor(vec![3], 3).unwrap();
    let c = g.new_tensor(vec![4], 4).unwrap();
    let k = g.concat(vec![a, b, c]).unwrap();
    let n = g.node(k).unwrap();
    assert_eq!(n.len, 9);
    assert_eq!(n.shape, vec![9]);
    assert_eq!(
        g.grad_routes(k).unwrap(),
        vec![
            route(a, GradRule::Slice { start: 0, len: 2 }),
            route(b, GradRule::Slice { start: 2, len: 3 }),
            route(c, GradRule::Slice { start: 5, len: 4 }),
        ]
    );
}

#[test]
fn concat_of_two_has_summed_length() {
    let mut g = Graph::new();
    let a = g.new_tensor(vec![2, 3], 6).unwrap();
    let b = g.new_tensor(vec![1], 1).unwrap();
    let k = g.concat(vec![a, b]).unwrap();
    assert_eq!(g.node(k).unwrap().len, 7);
    assert_eq!(g.node(k).unwrap().operation, Some(Operation::Concat(vec![a, b])));
    let e = g.concat(vec![]).unwrap();
    assert_eq!(g.node(e).unwrap().shape, vec![0]);
}

#[test]
fn inplace_checks_follow_recorded_shapes() {
    let mut g = Graph::new();
    let a = g.new_tensor(vec![2], 2).unwrap();
    let b = g.new_tensor(vec![2], 2).unwrap();
    let c = g.add(a, b).unwrap();
    let s = g.sum(c).unwrap();
    let w = g.new_tensor(vec![3], 3).unwrap();
    assert_eq!(g.add_inplace(a, b, c), Ok(()));
    assert_eq!(g.add_inplace(a, b, c), Ok(()));
    assert_eq!(g.mul_inplace(a, b, c), Ok(()));
    assert_eq!(g.add_inplace(a, w, c), Err(EngineError::ShapeMismatch));
    assert_eq!(g.add_inplace(a, b, 42), Err(EngineError::InvalidRef));
    assert_eq!(g.sum_inplace(w, s), Ok(()));
    assert_eq!(g.sum_inplace(w, c), Err(EngineError::ShapeMismatch));
    assert_eq!(g.apply_inplace(ActivationFunction::ReLU, a, c), Ok(()));
    assert_eq!(
        g.apply_inplace(ActivationFunction::LeakyReLU, a, c),
        Err(EngineError::UnsupportedOperation)
    );
    assert_eq!(
        g.apply_inplace(ActivationFunction::ReLU, w, c),
        Err(EngineError::ShapeMismatch)
    );
    let len_before = g.len();
    assert_eq!(g.node(c).unwrap().operation, Some(Operation::Add(vec![a, b])));
    assert_eq!(g.len(), len_before);
}

#[test]
fn concat_inplace_leaves_graph_unchanged() {
    let mut g = Graph::new();
    let a = g.new_tensor(vec![2], 2).unwrap();
    let b = g.new_tensor(vec![3], 3).unwrap();
    let k = g.concat(vec![a, b]).unwrap();
    assert_eq!(g.concat_inplace(&vec![a, b], k), Ok(()));
    assert_eq!(g.concat_inplace(&vec![b, a], k), Ok(()));
    assert_eq!(g.concat_inplace(&vec![a, a], k), Err(EngineError::ShapeMismatch));
    assert_eq!(g.concat_inplace(&vec![a, 7], k), Err(EngineError::InvalidRef));
    assert_eq!(g.len(), 3);
    assert_eq!(g.node(k).unwrap().shape, vec![5]);
    assert_eq!(g.node(k).unwrap().operation, Some(Operation::Concat(vec![a, b])));
}

#[test]
fn set_buffers_are_checked_against_length() {
    let mut g = Graph::new();
    let a = g.new_tensor(vec![2, 2], 4).unwrap();
    assert_eq!(g.check_len(a, 4), Ok(()));
    assert_eq!(g.check_len(a, 3), Err(EngineError::ShapeMismatch));
    assert_eq!(g.check_len(1, 4), Err(EngineError::InvalidRef));
}

#[test]
fn diamond_visits_each_tensor_once() {
    let mut g = Graph::new();
    let x = g.new_tensor(vec![2], 2).unwrap();
    let y = g.mul(x, x).unwrap();
    let z = g.add(y, x).unwrap();
    let unrelated = g.new_tensor(vec![2], 2).unwrap();
    let top = g.sum(z).unwrap();
    assert_eq!(g.backward_order(top).unwrap(), vec![top, z, y, x]);
    assert_eq!(g.backward_order(y).unwrap(), vec![y, x]);
    assert_eq!(g.backward_order(unrelated).unwrap(), vec![unrelated]);
    assert_eq!(g.grad_routes(x).unwrap(), vec![]);
    assert_eq!(g.operand_list(z), vec![y, x]);
}

#[test]
fn dot_product_inplace_appends_only_the_product() {
    let mut g = Graph::new();
    let l = g.new_tensor(vec![3], 3).unwrap();
    let r = g.new_tensor(vec![3], 3).unwrap();
    let out = g.new_tensor(vec![1], 1).unwrap();
    let m = g.dot_product_inplace(l, r, out).unwrap();
    assert_eq!(m, 3);
    assert_eq!(g.node(m).unwrap().operation, Some(Operation::Mul(l, r)));
    assert_eq!(g.dot_product_inplace(l, r, l), Err(EngineError::ShapeMismatch));
    assert_eq!(g.dot_product_inplace(l, r, 99), Err(EngineError::InvalidRef));
    assert_eq!(g.len(), 4);
}
