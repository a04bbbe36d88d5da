//! A feedforward neural-network engine: activation and cost tags, neurons and
//! layers, a network that is built layer by layer and then frozen for
//! evaluation, label derivation, evolutionary mutation, and the mapping
//! between RGBA pixels and input vectors.
//!
//! The engine is generic over its number type (see [`scalar::Scalar`]). What
//! is verified holds for every such type: every result is stated as the exact
//! composition of the type's operations, in the order they are applied,
//! together with the widths of all vectors, the chaining of layer widths,
//! which parameters an operation keeps or changes, label derivation, and the
//! image geometry. Random draws are stated as what holds for every draw.

pub mod activation;
pub mod cost;
pub mod geometry;
pub mod label;
pub mod network;
pub mod scalar;
pub mod training;
