pub mod activation_function;
pub mod layer_topology;
pub mod layer;
pub mod matrix;
pub mod network;
