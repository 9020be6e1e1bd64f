use vstd::prelude::*;

verus! {

/// The closed set of transforms a layer may apply after its affine step,
/// together with the matching weight-initialization policy.
///
/// The tag is pure data: the verified core dispatches on it to track shapes
/// and parameter layout, while the floating-point evaluation of each
/// transform (and the sampling of initial weights) is carried out by the
/// unverified numeric front end.
#[derive(Clone, Copy, Debug, PartialEq, Eq, Structural)]
pub enum ActivationFunction {
    /// Identity: the affine output is passed through unchanged.
    Linear,
    /// Elementwise `max(0, x)`.
    Relu,
    /// Elementwise logistic function `1 / (1 + exp(-x))`.
    Sigmoid,
    /// Row-wise normalized exponential; each output row sums to one.
    Softmax,
}

} // verus!
