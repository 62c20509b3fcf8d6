//! A small feed-forward neural network: a stack of fully connected layers,
//! trained row by row with backpropagation.
//!
//! A [`NeuralNetwork`] is built layer by layer, takes rows into a training
//! and a testing dataset, trains on the one while it reports its cost on the
//! other, and predicts. It is generic over the numbers it computes with
//! ([`Scalar`]), over the activation functions of its layers
//! ([`ActivationFunction`]; [`Activation`] holds the usual ones) and over the
//! cost function it is trained with ([`CostFunction`];
//! [`MeanSquaredError`] is the usual one).
//!
//! What the network does is stated twice, over sequences. The relations of
//! [`outcome`] hold of every number type: they say which operations a pass
//! applies to which operands, in which order, whatever each operation
//! returns. The functions of [`model`] say what a pass computes for number
//! types whose operations are functions of their operands; see
//! [`scalar::deterministic`]. [`determinism`] proves that the two agree
//! there, and [`laws`] what follows: that a prediction has the length of
//! the output layer, that it depends on the weights alone, that training
//! keeps every shape.
mod backward;
mod dataset;
pub mod determinism;
pub mod error;
pub mod laws;
mod layer;
pub mod model;
pub mod neural_network;
pub mod nn_functions;
pub mod outcome;
pub mod scalar;
mod training;

pub use error::NetworkError;
pub use neural_network::NeuralNetwork;
pub use nn_functions::{Activation, ActivationFunction, CostFunction, MeanSquaredError};
pub use scalar::Scalar;
