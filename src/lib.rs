pub mod activation;
pub mod backward;
pub mod composite;
pub mod engine;
pub mod graph;
pub mod idx;
pub mod laws;
pub mod loss;
pub mod rules;
pub mod tensor;
