use tensorgraph::activation::ActivationFunction;
use tensorgraph::composite::CompositeOperation;
use tensorgraph::engine::{Tensor, TensorContext};
use tensorgraph::loss::LossFunction;
use tensorgraph::rules::Arith;
use tensorgraph::tensor::{EngineError, Operation};

type Ctx = TensorContext<f64, fn(Arith, f64, f64) -> f64>;

fn arith(op: Arith, a: f64, b: f64) -> f64 {
    match op {
        Arith::Add => a + b,
        Arith::Sub => a - b,
        Arith::Mul => a * b,
        Arith::Pow => a.powf(b),
        Arith::Relu => a.max(0.0),
        Arith::Gate => {
            if b > 0.0 {
                a
            } else {
                0.0
            }
        }
        Arith::PowSlope => b * a.powf(b - 1.0),
    }
}

fn create_tensor_context(capacity: usize) -> Ctx {
    TensorContext::new(capacity, 0.0, arith as fn(Arith, f64, f64) -> f64)
}

#[test]
fn tensor_context_test_add() {
    let mut tensor_context = create_tensor_context(20);
    let tensor_ref1 = tensor_context.new_tensor(vec![1], vec![1.0]).unwrap();
    let tensor_ref2 = tensor_context.new_tensor(vec![1], vec![1.0]).unwrap();
    let tensor_ref3 = tensor_context.add(tensor_ref1, tensor_ref2).unwrap();
    let tensor = tensor_context.get_tensor(tensor_ref3).unwrap();
    assert_eq!(tensor.data, vec![2.0]);
}

#[test]
fn test_add_inplace() {
    let mut tensor_context = create_tensor_context(20);
    let tensor_ref1 = tensor_context.new_tensor(vec![1], vec![1.0]).unwrap();
    let tensor_ref2 = tensor_context.new_tensor(vec![1], vec![1.0]).unwrap();
    let tensor_ref3 = tensor_context.add(tensor_ref1, tensor_ref2).unwrap();
    let tensor = tensor_context.get_tensor(tensor_ref3).unwrap();
    assert_eq!(tensor.data, vec![2.0]);

    tensor_context.add_inplace(tensor_ref1, tensor_ref2, tensor_ref3).unwrap();
    let tensor = tensor_context.get_tensor(tensor_ref3).unwrap();
    assert_eq!(tensor.data, vec![2.0]);

    tensor_context.add_inplace(tensor_ref1, tensor_ref2, tensor_ref3).unwrap();
    let tensor = tensor_context.get_tensor(tensor_ref3).unwrap();
    assert_eq!(tensor.data, vec![2.0]);
}

#[test]
fn test_add_inplace_after_modify() {
    let mut tensor_context = create_tensor_context(20);
    let tensor_ref1 = tensor_context.new_tensor(vec![1], vec![1.0]).unwrap();
    let tensor_ref2 = tensor_context.new_tensor(vec![1], vec![1.0]).unwrap();
    let tensor_ref3 = tensor_context.add(tensor_ref1, tensor_ref2).unwrap();
    let tensor = tensor_context.get_tensor(tensor_ref3).unwrap();
    assert_eq!(tensor.data, vec![2.0]);

    tensor_context.set_data(tensor_ref1, vec![2.0]).unwrap();
    tensor_context.set_data(tensor_ref2, vec![2.0]).unwrap();
    tensor_context.add_inplace(tensor_ref1, tensor_ref2, tensor_ref3).unwrap();
    let tensor = tensor_context.get_tensor(tensor_ref3).unwrap();
    assert_eq!(tensor.data, vec![4.0]);
}

#[test]
fn test_sum() {
    let mut tensor_context = create_tensor_context(20);
    let tensor_ref1 = tensor_context.new_tensor(vec![2], vec![1.0, 1.0]).unwrap();
    let tensor_ref2 = tensor_context.sum(tensor_ref1).unwrap();
    let tensor = tensor_context.get_tensor(tensor_ref2).unwrap();
    assert_eq!(tensor.data, vec![2.0]);
}

#[test]
fn test_sum_inplace() {
    let mut tensor_context = create_tensor_context(20);
    let tensor_ref1 = tensor_context.new_tensor(vec![2], vec![1.0, 1.0]).unwrap();
    let tensor_ref2 = tensor_context.sum(tensor_ref1).unwrap();
    let tensor = tensor_context.get_tensor(tensor_ref2).unwrap();
    assert_eq!(tensor.data, vec![2.0]);

    tensor_context.set_data(tensor_ref1, vec![2.0, 2.0]).unwrap();
    tensor_context.sum_inplace(tensor_ref1, tensor_ref2).unwrap();
    let tensor = tensor_context.get_tensor(tensor_ref2).unwrap();
    assert_eq!(tensor.data, vec![4.0]);
}

#[test]
fn tensor_context_test_mul() {
    let mut tensor_context = create_tensor_context(20);
    let tensor_ref1 = tensor_context.new_tensor(vec![1], vec![2.0]).unwrap();
    let tensor_ref2 = tensor_context.new_tensor(vec![1], vec![2.0]).unwrap();
    let tensor_ref3 = tensor_context.mul(tensor_ref1, tensor_ref2).unwrap();
    let tensor = tensor_context.get_tensor(tensor_ref3).unwrap();
    assert_eq!(tensor.data, vec![4.0]);
}

#[test]
fn test_mul_inplace() {
    let mut tensor_context = create_tensor_context(20);
    let tensor_ref1 = tensor_context.new_tensor(vec![1], vec![2.0]).unwrap();
    let tensor_ref2 = tensor_context.new_tensor(vec![1], vec![2.0]).unwrap();
    let tensor_ref3 = tensor_context.mul(tensor_ref1, tensor_ref2).unwrap();
    let tensor = tensor_context.get_tensor(tensor_ref3).unwrap();
    assert_eq!(tensor.data, vec![4.0]);

    tensor_context.set_data(tensor_ref1, vec![3.0]).unwrap();
    tensor_context.mul_inplace(tensor_ref1, tensor_ref2, tensor_ref3).unwrap();
    let tensor = tensor_context.get_tensor(tensor_ref3).unwrap();
    assert_eq!(tensor.data, vec![6.0]);
}

#[test]
fn test_backwards_add() {
    let mut tensor_context = create_tensor_context(20);
    let tensor_ref1 = tensor_context.new_tensor(vec![1], vec![1.0]).unwrap();
    let tensor_ref2 = tensor_context.new_tensor(vec![1], vec![1.0]).unwrap();
    let tensor_ref3 = tensor_context.add(tensor_ref1, tensor_ref2).unwrap();
    let tensor = tensor_context.get_tensor(tensor_ref3).unwrap();
    assert_eq!(tensor.data, vec![2.0]);

    let tensor1 = tensor_context.get_tensor(tensor_ref1).unwrap();
    let tensor2 = tensor_context.get_tensor(tensor_ref2).unwrap();
    assert_eq!(tensor1.grad, None);
    assert_eq!(tensor2.grad, None);

    tensor_context.set_grad(tensor_ref3, vec![1.0]).unwrap();
    tensor_context.backwards(tensor_ref3).unwrap();

    let tensor1 = tensor_context.get_tensor(tensor_ref1).unwrap();
    let tensor2 = tensor_context.get_tensor(tensor_ref2).unwrap();
    assert_eq!(tensor1.grad, Some(vec![1.0]));
    assert_eq!(tensor2.grad, Some(vec![1.0]));
}

#[test]
fn test_backwards_mul() {
    let mut tensor_context = create_tensor_context(20);
    let tensor_ref1 = tensor_context.new_tensor(vec![1], vec![1.0]).unwrap();
    let tensor_ref2 = tensor_context.new_tensor(vec![1], vec![2.0]).unwrap();

    assert_eq!(tensor_context.get_tensor(tensor_ref1).unwrap().grad, None);
    assert_eq!(tensor_context.get_tensor(tensor_ref2).unwrap().grad, None);

    let tensor_ref3 = tensor_context.mul(tensor_ref1, tensor_ref2).unwrap();
    let tensor = tensor_context.get_tensor(tensor_ref3).unwrap();
    assert_eq!(tensor.data, vec![2.0]);

    tensor_context.set_grad(tensor_ref3, vec![1.0]).unwrap();
    tensor_context.backwards(tensor_ref3).unwrap();

    let tensor1 = tensor_context.get_tensor(tensor_ref1).unwrap();
    let tensor2 = tensor_context.get_tensor(tensor_ref2).unwrap();
    assert_eq!(tensor1.grad, Some(vec![2.0]));
    assert_eq!(tensor2.grad, Some(vec![1.0]));
}

#[test]
fn test_sum_backwards() {
    let mut tensor_context = create_tensor_context(20);
    let tensor_ref1 = tensor_context.new_tensor(vec![2], vec![1.0, 1.0]).unwrap();
    let tensor_ref2 = tensor_context.sum(tensor_ref1).unwrap();
    let tensor = tensor_context.get_tensor(tensor_ref2).unwrap();
    assert_eq!(tensor.data, vec![2.0]);

    assert_eq!(tensor_context.get_tensor(tensor_ref1).unwrap().grad, None);

    tensor_context.set_grad(tensor_ref2, vec![1.0]).unwrap();
    tensor_context.backwards(tensor_ref2).unwrap();

    let tensor1 = tensor_context.get_tensor(tensor_ref1).unwrap();
    assert_eq!(tensor1.grad, Some(vec![1.0, 1.0]));
}

#[test]
fn add_values_and_gradients_over_three_elements() {
    let mut c = create_tensor_context(8);
    let a = c.new_tensor(vec![3], vec![1.0, -2.0, 0.5]).unwrap();
    let b = c.new_tensor(vec![3], vec![4.0, 2.0, 0.25]).unwrap();
    let s = c.add(a, b).unwrap();
    assert_eq!(c.get_tensor(s).unwrap().data, vec![5.0, 0.0, 0.75]);
    c.set_grad(s, vec![0.5, 1.5, -1.0]).unwrap();
    c.backwards(s).unwrap();
    assert_eq!(c.get_tensor(a).unwrap().grad, Some(vec![0.5, 1.5, -1.0]));
    assert_eq!(c.get_tensor(b).unwrap().grad, Some(vec![0.5, 1.5, -1.0]));
}

#[test]
fn mul_gradients_scale_by_the_other_operand() {
    let mut c = create_tensor_context(8);
    let a = c.new_tensor(vec![2], vec![3.0, -1.0]).unwrap();
    let b = c.new_tensor(vec![2], vec![2.0, 5.0]).unwrap();
    let p = c.mul(a, b).unwrap();
    assert_eq!(c.get_tensor(p).unwrap().data, vec![6.0, -5.0]);
    c.set_grad(p, vec![1.0, 2.0]).unwrap();
    c.backwards(p).unwrap();
    assert_eq!(c.get_tensor(a).unwrap().grad, Some(vec![2.0, 10.0]));
    assert_eq!(c.get_tensor(b).unwrap().grad, Some(vec![3.0, -2.0]));
}

#[test]
fn sum_gradient_is_broadcast() {
    let mut c = create_tensor_context(8);
    let x = c.new_tensor(vec![2, 2], vec![1.0, 2.0, 3.0, 4.0]).unwrap();
    let s = c.sum(x).unwrap();
    assert_eq!(c.get_tensor(s).unwrap().data, vec![10.0]);
    assert_eq!(c.get_tensor(s).unwrap().shape, vec![1]);
    c.set_grad(s, vec![3.0]).unwrap();
    c.backwards(s).unwrap();
    assert_eq!(c.get_tensor(x).unwrap().grad, Some(vec![3.0, 3.0, 3.0, 3.0]));
}

#[test]
fn concat_values_follow_in_order() {
    let mut c = create_tensor_context(8);
    let a = c.new_tensor(vec![2], vec![1.0, 2.0]).unwrap();
    let b = c.new_tensor(vec![3], vec![3.0, 4.0, 5.0]).unwrap();
    let k = c.concat(vec![a, b]).unwrap();
    let t = c.get_tensor(k).unwrap();
    assert_eq!(t.data, vec![1.0, 2.0, 3.0, 4.0, 5.0]);
    assert_eq!(t.shape, vec![5]);
    c.set_data(a, vec![9.0, 8.0]).unwrap();
    c.concat_inplace(vec![a, b], k).unwrap();
    let t = c.get_tensor(k).unwrap();
    assert_eq!(t.data, vec![9.0, 8.0, 3.0, 4.0, 5.0]);
    assert_eq!(t.shape, vec![5]);
    assert_eq!(t.operation, Some(Operation::Concat(vec![a, b])));
    assert_eq!(c.len(), 3);
}

#[test]
fn concat_of_three_slices_gradient_back() {
    let mut c = create_tensor_context(8);
    let a = c.new_tensor(vec![2], vec![0.0; 2]).unwrap();
    let b = c.new_tensor(vec![3], vec![0.0; 3]).unwrap();
    let d = c.new_tensor(vec![4], vec![0.0; 4]).unwrap();
    let k = c.concat(vec![a, b, d]).unwrap();
    assert_eq!(c.get_tensor(k).unwrap().data.len(), 9);
    let seed: Vec<f64> = (1..=9).map(|i| i as f64).collect();
    c.set_grad(k, seed).unwrap();
    c.backwards(k).unwrap();
    assert_eq!(c.get_tensor(a).unwrap().grad, Some(vec![1.0, 2.0]));
    assert_eq!(c.get_tensor(b).unwrap().grad, Some(vec![3.0, 4.0, 5.0]));
    assert_eq!(c.get_tensor(d).unwrap().grad, Some(vec![6.0, 7.0, 8.0, 9.0]));
}

#[test]
fn concat_of_ones_seed_reaches_each_operand() {
    let mut c = create_tensor_context(8);
    let a = c.new_tensor(vec![2], vec![0.0; 2]).unwrap();
    let b = c.new_tensor(vec![3], vec![0.0; 3]).unwrap();
    let d = c.new_tensor(vec![4], vec![0.0; 4]).unwrap();
    let k = c.concat(vec![a, b, d]).unwrap();
    c.set_grad(k, vec![1.0; 9]).unwrap();
    c.backwards(k).unwrap();
    assert_eq!(c.get_tensor(a).unwrap().grad, Some(vec![1.0; 2]));
    assert_eq!(c.get_tensor(b).unwrap().grad, Some(vec![1.0; 3]));
    assert_eq!(c.get_tensor(d).unwrap().grad, Some(vec![1.0; 4]));
}

#[test]
fn mul_scenario_from_two_scalars() {
    let mut c = create_tensor_context(4);
    let t1 = c.new_tensor(vec![1], vec![1.0]).unwrap();
    let t2 = c.new_tensor(vec![1], vec![2.0]).unwrap();
    let t3 = c.mul(t1, t2).unwrap();
    assert_eq!(c.get_tensor(t3).unwrap().data, vec![2.0]);
    c.set_grad(t3, vec![1.0]).unwrap();
    c.backwards(t3).unwrap();
    assert_eq!(c.get_tensor(t1).unwrap().grad, Some(vec![2.0]));
    assert_eq!(c.get_tensor(t2).unwrap().grad, Some(vec![1.0]));
}

#[test]
fn add_inplace_twice_is_stable() {
    let mut c = create_tensor_context(4);
    let t1 = c.new_tensor(vec![2], vec![0.1, 0.2]).unwrap();
    let t2 = c.new_tensor(vec![2], vec![0.3, 0.4]).unwrap();
    let t3 = c.add(t1, t2).unwrap();
    c.add_inplace(t1, t2, t3).unwrap();
    let first = c.get_tensor(t3).unwrap().data;
    c.add_inplace(t1, t2, t3).unwrap();
    assert_eq!(c.get_tensor(t3).unwrap().data, first);
}

#[test]
fn shared_operand_accumulates_every_contribution() {
    let mut c = create_tensor_context(8);
    let x = c.new_tensor(vec![2], vec![3.0, -2.0]).unwrap();
    let y = c.mul(x, x).unwrap();
    let z = c.add(y, x).unwrap();
    let s = c.sum(z).unwrap();
    c.set_grad(s, vec![1.0]).unwrap();
    c.backwards(s).unwrap();
    // d/dx of sum(x*x + x) is 2x + 1.
    assert_eq!(c.get_tensor(x).unwrap().grad, Some(vec![7.0, -3.0]));
    assert_eq!(c.get_tensor(y).unwrap().grad, Some(vec![1.0, 1.0]));
}

#[test]
fn sub_pow_and_relu_rules() {
    let mut c = create_tensor_context(16);
    let a = c.new_tensor(vec![3], vec![3.0, 1.0, -2.0]).unwrap();
    let b = c.new_tensor(vec![3], vec![1.0, 1.0, 1.0]).unwrap();
    let d = c.sub(a, b).unwrap();
    assert_eq!(c.get_tensor(d).unwrap().data, vec![2.0, 0.0, -3.0]);
    let sq = c.pow(d, 2.0).unwrap();
    assert_eq!(c.get_tensor(sq).unwrap().data, vec![4.0, 0.0, 9.0]);
    let r = c.apply(ActivationFunction::ReLU, d).unwrap();
    assert_eq!(c.get_tensor(r).unwrap().data, vec![2.0, 0.0, 0.0]);

    c.set_grad(sq, vec![1.0, 1.0, 1.0]).unwrap();
    c.backwards(sq).unwrap();
    assert_eq!(c.get_tensor(d).unwrap().grad, Some(vec![4.0, 0.0, -6.0]));
    assert_eq!(c.get_tensor(a).unwrap().grad, Some(vec![4.0, 0.0, -6.0]));
    assert_eq!(c.get_tensor(b).unwrap().grad, Some(vec![-4.0, 0.0, 6.0]));

    c.reset_grads(sq).unwrap();
    assert_eq!(c.get_tensor(a).unwrap().grad, None);
    assert_eq!(c.get_tensor(sq).unwrap().grad, None);

    c.set_grad(r, vec![-1.0, 5.0, 7.0]).unwrap();
    c.backwards(r).unwrap();
    assert_eq!(c.get_tensor(d).unwrap().grad, Some(vec![-1.0, 0.0, 0.0]));
}

#[test]
fn backwards_without_seed_starts_from_zero() {
    let mut c = create_tensor_context(4);
    let a = c.new_tensor(vec![2], vec![1.0, 2.0]).unwrap();
    let s = c.sum(a).unwrap();
    c.backwards(s).unwrap();
    assert_eq!(c.get_tensor(s).unwrap().grad, Some(vec![0.0]));
    assert_eq!(c.get_tensor(a).unwrap().grad, Some(vec![0.0, 0.0]));
    assert_eq!(c.backwards(9), Err(EngineError::InvalidRef));
}

#[test]
fn update_moves_against_the_gradient_with_negative_step() {
    let mut c = create_tensor_context(4);
    let w = c.new_tensor(vec![2], vec![1.0, 2.0]).unwrap();
    c.update_data_from_grad(w, -0.5).unwrap();
    assert_eq!(c.get_tensor(w).unwrap().data, vec![1.0, 2.0]);
    c.set_grad(w, vec![2.0, -4.0]).unwrap();
    c.update_data_from_grad(w, -0.5).unwrap();
    assert_eq!(c.get_tensor(w).unwrap().data, vec![0.0, 4.0]);
    assert_eq!(c.update_data_from_grad(3, -0.5), Err(EngineError::InvalidRef));
}

#[test]
fn setters_check_lengths() {
    let mut c = create_tensor_context(4);
    let w = c.new_tensor(vec![2], vec![1.0, 2.0]).unwrap();
    assert_eq!(c.set_data(w, vec![1.0]), Err(EngineError::ShapeMismatch));
    assert_eq!(c.set_grad(w, vec![1.0, 2.0, 3.0]), Err(EngineError::ShapeMismatch));
    assert_eq!(c.set_data(5, vec![1.0]), Err(EngineError::InvalidRef));
    assert_eq!(c.new_tensor(vec![2, 2], vec![1.0]), Err(EngineError::ShapeMismatch));
    assert_eq!(c.get_tensor(w).unwrap().data, vec![1.0, 2.0]);
    assert!(c.get_tensor(7).is_err());
}

#[test]
fn composite_dot_product_replays_in_place() {
    let mut c = create_tensor_context(8);
    let l = c.new_tensor(vec![3], vec![1.0, 2.0, 3.0]).unwrap();
    let r = c.new_tensor(vec![3], vec![4.0, 5.0, 6.0]).unwrap();
    let dot = CompositeOperation::dot_product(&mut c, l, r).unwrap();
    assert_eq!(dot.output_tensor, 3);
    assert_eq!(dot.operations, vec![(Operation::Mul(l, r), 2), (Operation::Sum(2), 3)]);
    assert_eq!(c.get_tensor(dot.output_tensor).unwrap().data, vec![32.0]);

    c.set_data(l, vec![1.0, 1.0, 1.0]).unwrap();
    dot.perform(&mut c).unwrap();
    assert_eq!(c.get_tensor(dot.output_tensor).unwrap().data, vec![15.0]);
    assert_eq!(c.len(), 4);

    c.set_grad(dot.output_tensor, vec![1.0]).unwrap();
    dot.backprop(&mut c).unwrap();
    assert_eq!(c.get_tensor(l).unwrap().grad, Some(vec![4.0, 5.0, 6.0]));
    assert_eq!(c.get_tensor(r).unwrap().grad, Some(vec![1.0, 1.0, 1.0]));

    let bad = CompositeOperation { operations: vec![(Operation::Pow(l), 2)], output_tensor: 2 };
    assert_eq!(bad.perform(&mut c), Err(EngineError::UnsupportedOperation));
}

#[test]
fn dot_products_fresh_and_in_place() {
    let mut c = create_tensor_context(8);
    let l = c.new_tensor(vec![2], vec![1.0, 2.0]).unwrap();
    let r = c.new_tensor(vec![2], vec![3.0, 4.0]).unwrap();
    let s = c.dot_product(l, r).unwrap();
    assert_eq!(c.get_tensor(s).unwrap().data, vec![11.0]);
    let out = c.new_tensor(vec![1], vec![0.0]).unwrap();
    c.dot_product_inplace(l, r, out).unwrap();
    assert_eq!(c.get_tensor(out).unwrap().data, vec![11.0]);
    assert_eq!(c.dot_product_inplace(l, r, l), Err(EngineError::ShapeMismatch));
    let w = c.new_tensor(vec![3], vec![0.0; 3]).unwrap();
    assert_eq!(c.dot_product(l, w), Err(EngineError::ShapeMismatch));
}

#[test]
fn activation_kinds_without_rules_are_reported() {
    let mut c = create_tensor_context(4);
    let x = c.new_tensor(vec![2], vec![-1.0, 1.0]).unwrap();
    assert_eq!(c.apply(ActivationFunction::Tanh, x), Err(EngineError::UnsupportedOperation));
    let r = c.apply(ActivationFunction::ReLU, x).unwrap();
    assert_eq!(
        c.apply_inplace(ActivationFunction::Sigmoid, x, r),
        Err(EngineError::UnsupportedOperation)
    );
    c.set_data(x, vec![2.0, -3.0]).unwrap();
    c.apply_inplace(ActivationFunction::ReLU, x, r).unwrap();
    assert_eq!(c.get_tensor(r).unwrap().data, vec![2.0, 0.0]);
}

#[test]
fn squared_error_loss_and_its_gradient() {
    let mut c = create_tensor_context(8);
    let prediction = c.new_tensor(vec![2], vec![3.0, 1.0]).unwrap();
    let label = c.new_tensor(vec![2], vec![1.0, 2.0]).unwrap();
    let loss = LossFunction::MeanSquaredError.loss(&mut c, prediction, label).unwrap();
    assert_eq!(loss, 4);
    assert_eq!(c.get_tensor(loss).unwrap().data, vec![5.0]);
    assert_eq!(c.get_tensor(2).unwrap().operation, Some(Operation::Sub(prediction, label)));
    c.set_grad(loss, vec![1.0]).unwrap();
    c.backwards(loss).unwrap();
    // d/dp of (p - l)^2 is 2 (p - l).
    assert_eq!(c.get_tensor(prediction).unwrap().grad, Some(vec![4.0, -2.0]));
    assert_eq!(c.get_tensor(label).unwrap().grad, Some(vec![-4.0, 2.0]));

    c.set_data(prediction, vec![1.0, 2.0]).unwrap();
    c.sub_inplace(prediction, label, 2).unwrap();
    assert_eq!(c.get_tensor(2).unwrap().data, vec![0.0, 0.0]);
}

#[test]
fn loss_kinds_without_rules_are_reported() {
    let mut c = create_tensor_context(8);
    let a = c.new_tensor(vec![1], vec![1.0]).unwrap();
    let b = c.new_tensor(vec![1], vec![1.0]).unwrap();
    assert_eq!(
        LossFunction::CrossEntropy.loss(&mut c, a, b),
        Err(EngineError::UnsupportedOperation)
    );
    assert_eq!(
        LossFunction::SparseCrossEntropy.loss(&mut c, a, b),
        Err(EngineError::UnsupportedOperation)
    );
    let w = c.new_tensor(vec![2], vec![1.0, 1.0]).unwrap();
    assert_eq!(
        LossFunction::MeanSquaredError.loss(&mut c, a, w),
        Err(EngineError::ShapeMismatch)
    );
    assert_eq!(c.len(), 3);
}

#[test]
fn standalone_tensor_moves_into_context() {
    let t = Tensor::new(vec![2, 1], vec![0.5, 1.5]);
    assert_eq!(t.grad, None);
    assert_eq!(t.operation, None);
    let mut c = create_tensor_context(4);
    let h = c.transfer_tensor(t).unwrap();
    let got = c.get_tensor(h).unwrap();
    assert_eq!(got.shape, vec![2, 1]);
    assert_eq!(got.data, vec![0.5, 1.5]);
    assert_eq!(
        c.transfer_tensor(Tensor::new(vec![3], vec![1.0])),
        Err(EngineError::ShapeMismatch)
    );
}
