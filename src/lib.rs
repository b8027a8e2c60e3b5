//! A layered feed-forward network of computational units: its data model,
//! address-based lookup, input loading and the wiring a layer-ordered
//! evaluation pulls through, and a staged builder that assembles it.
pub mod builder;
pub mod evaluation;
pub mod models;
pub mod network;

pub use builder::{NeuralNetworkBuilder, WeightSource};
pub use models::{Arithmetic, InputNeuron, NeuronModel, OutputNeuron, TrainableNeuronModel, TrivialNeuron};
pub use network::{AddressError, Connection, Layer, NeuralNetwork, Neuron};
