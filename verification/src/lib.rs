//! A minimal feedforward neural network engine: dense matrices, a pluggable
//! activation strategy, forward inference, backpropagation-based training,
//! and snapshots of the learned parameters.
//!
//! The engine is generic over the scalar number type (see [`scalar::Scalar`]),
//! and every operation's result is pinned down by its contract in terms of
//! the scalar's specification-level arithmetic.

use vstd::prelude::*;

pub mod activation;
pub mod matrix;
pub mod network;
pub mod scalar;

verus! {

/// Every failure the engine reports to its caller.
#[derive(Clone, Copy, Debug, PartialEq, Eq, Structural)]
pub enum NetError {
    /// Operand dimensions of a matrix operation are incompatible.
    ShapeMismatch,
    /// A network was constructed with fewer than two layers or an empty layer.
    InvalidTopology,
    /// A forward pass was fed a vector whose length is not the input layer size.
    InputSizeMismatch,
    /// A backward pass was fed a target vector whose length is not the output layer size.
    TargetSizeMismatch,
    /// A backward pass was invoked without the activation cache of a matching forward pass.
    StaleOrMissingActivationCache,
    /// A persisted record does not describe a well-formed network.
    CorruptRecord,
}

} // verus!
