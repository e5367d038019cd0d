use vstd::prelude::*;

verus! {

/// The activation kinds that a layer may ask for.
#[derive(Debug, Clone, Copy, PartialEq, Eq, Structural)]
pub enum ActivationFunction {
    Sigmoid,
    ReLU,
    LeakyReLU,
    Tanh,
    Softmax,
}

} // verus!
