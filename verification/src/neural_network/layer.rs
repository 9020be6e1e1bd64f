use vstd::prelude::*;

use crate::neural_network::activation_function::ActivationFunction;
use crate::neural_network::layer_topology::LayerTopology;
use crate::neural_network::matrix::Matrix;

verus! {

/// One dense layer: a weight matrix of shape `(n_neurons, n_inputs)`, one
/// bias per neuron, and the activation applied after the affine step.
///
/// The layer owns its parameters exclusively and is immutable once built;
/// an optimizer that wants different parameters builds a new layer.
#[derive(Clone, Debug, PartialEq, Eq)]
pub struct Layer {
    pub weights: Matrix,
    pub biases: Vec<u32>,
    pub activation_function: ActivationFunction,
}

impl Layer {
    /// Shape invariant: the weight buffer matches its stated shape, both
    /// dimensions name at least one unit, and there is one bias per neuron.
    pub open spec fn wf(self) -> bool {
        &&& self.weights.wf()
        &&& self.weights.rows >= 1
        &&& self.weights.cols >= 1
        &&& self.biases@.len() == self.weights.rows
    }

    /// The layer's slice of a genome: all weight entries in row-major order
    /// (each row is one neuron's incoming weights), then all biases in
    /// neuron order.
    pub open spec fn genome(self) -> Seq<u32> {
        self.weights.data@ + self.biases@
    }

    /// The layer's shape descriptor.
    pub open spec fn topology_spec(self) -> LayerTopology {
        LayerTopology {
            n_neurons: self.weights.rows,
            activation_function: self.activation_function,
        }
    }

    /// Builds a layer from explicit parameters. A weight matrix whose row
    /// count disagrees with the bias count does not describe a layer, so the
    /// caller must present matching shapes.
    pub fn new(weights: Matrix, biases: Vec<u32>, activation_function: ActivationFunction) -> (l: Layer)
        requires
            weights.wf(),
            weights.rows >= 1,
            weights.cols >= 1,
            biases@.len() == weights.rows,
        ensures
            l.wf(),
            l.weights == weights,
            l.biases == biases,
            l.activation_function == activation_function,
    {
        Layer { weights, biases, activation_function }
    }

    /// A freshly initialized layer: the caller supplies the sampled weight
    /// matrix (the sampling distribution depends on the activation and is
    /// drawn by the numeric front end), and every bias starts at the zero
    /// code.
    pub fn random(
        n_inputs: usize,
        n_neurons: usize,
        activation_function: ActivationFunction,
        weights: Matrix,
    ) -> (l: Layer)
        requires
            n_inputs >= 1,
            n_neurons >= 1,
            weights.wf(),
            weights.rows == n_neurons,
            weights.cols == n_inputs,
        ensures
            l.wf(),
            l.weights == weights,
            l.biases@.len() == n_neurons,
            forall|i: int| 0 <= i < n_neurons ==> l.biases@[i] == 0u32,
            l.activation_function == activation_function,
    {
        let mut biases: Vec<u32> = Vec::new();
        for i in 0..n_neurons
            invariant
                biases@.len() == i,
                forall|j: int| 0 <= j < i ==> biases@[j] == 0u32,
        {
            biases.push(0u32);
        }
        Layer::new(weights, biases, activation_function)
    }

    pub fn n_inputs(&self) -> (n: usize)
        ensures
            n == self.weights.cols,
    {
        self.weights.ncols()
    }

    pub fn n_neurons(&self) -> (n: usize)
        ensures
            n == self.weights.rows,
    {
        self.weights.nrows()
    }

    pub fn topology(&self) -> (t: LayerTopology)
        requires
            self.wf(),
        ensures
            t == self.topology_spec(),
    {
        LayerTopology::new(self.n_neurons(), self.activation_function)
    }
}

} // verus!
