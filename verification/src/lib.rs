//! A single trainable neuron together with the small numeric toolkit it rests
//! on: activation functions, dense vectors and row-major matrices.
//!
//! Every item is generic over the scalar type. What a function computes is
//! stated over the specification functions that `vstd` attaches to the
//! arithmetic and comparison operators of that type: which operator is
//! applied to which operands, and in which order. The module `exact` adds
//! what the results are where those operators compute as the real numbers
//! do.

pub mod error;
pub mod scalar;
pub mod activation;
pub mod vector;
pub mod matrix;
pub mod network;
pub mod curve;
pub mod exact;
