//! Deepwise: the structural core of a small neural-network library.
//!
//! The numeric work of the network (activations, dot products, gradients,
//! optimizer steps, normalisation) is done in floating point by the
//! application layer. This crate holds, with verified contracts, everything
//! around it: the layer and network containers and their shape invariants,
//! neuron freezing, parameter access, name parsing, the training schedule
//! (shuffling, batching, dropout and sampling masks, which neurons an update
//! touches), the per-neuron Adam step bookkeeping and the MessagePack framing
//! of saved models.

pub mod activation;
pub mod laws;
pub mod layer;
pub mod network;
pub mod optimizer;
pub mod saveload;
pub mod schedule;
pub mod task;

pub use activation::Activation;
pub use layer::{LayerError, Linear, Neuron};
pub use network::{Network, NetworkError};
pub use optimizer::{Adam, AdamState, SGD};
pub use saveload::ModelIoError;
pub use task::{OptimizerKind, Task};
