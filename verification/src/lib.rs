//! A gate-based quantum circuit library. The layout of circuits, the product states of the
//! computational basis and the bookkeeping of superpositions are verified; the complex
//! amplitudes are a type parameter that the library never computes with.

pub mod circuit;
pub mod error;
pub mod gate;
pub mod measurement;
pub mod simulated_circuit;
pub mod simulation;
pub mod standard_gate_ops;
pub mod states;
mod text;

pub use error::QuantrError;
pub use gate::Gate;
pub use measurement::Measurement;
pub use simulated_circuit::SimulatedCircuit;
pub use circuit::Circuit;
pub use circuit::printer::Printer;
