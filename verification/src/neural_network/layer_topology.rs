use vstd::prelude::*;

use crate::neural_network::activation_function::ActivationFunction;

verus! {

/// A shape descriptor for one layer: how many neurons it has and which
/// activation it applies. It carries no numeric parameters, so it serves
/// both as a construction request and as an introspection result.
#[derive(Clone, Copy, Debug, PartialEq, Eq, Structural)]
pub struct LayerTopology {
    pub n_neurons: usize,
    pub activation_function: ActivationFunction,
}

impl LayerTopology {
    /// A descriptor always names at least one neuron.
    pub fn new(n_neurons: usize, activation_function: ActivationFunction) -> (t: LayerTopology)
        requires
            n_neurons >= 1,
        ensures
            t.n_neurons == n_neurons,
            t.activation_function == activation_function,
    {
        LayerTopology { n_neurons, activation_function }
    }
}

} // verus!
