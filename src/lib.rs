//! Feed-forward neural-network inference.
//!
//! A network is an ordered stack of layers, each a weight matrix and a bias
//! vector. Inference feeds an input vector through every layer in order: an
//! affine transform (bias plus the weighted sum of the inputs, accumulated in
//! index order) followed by an elementwise nonlinearity. The library is
//! generic over the scalar type; the caller supplies the scalar's
//! accumulation step and the nonlinearity (absolute value in the usual
//! setting).
use vstd::prelude::*;

pub mod demo;
pub mod kernel;
pub mod network;

verus! {

} // verus!
