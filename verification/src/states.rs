//! Defines the qubit, product states and superpositions including relevant operations.
//!
//! The [Qubit] is an enum with variants [Qubit::Zero] and [Qubit::One] for |0> and |1>.
//! The [ProductState] is a sequence of qubits labelling a state of the computational basis,
//! such as |01101>. The [SuperPosition] assigns an amplitude to each state of the basis.

mod product_state;
mod product_state_iter;
mod qubit;
mod super_position;

pub use product_state::{
    basis_index, basis_state, bit_of, flipped, label, law_basis_index_bound, law_basis_state_of_index,
    law_index_of_basis_state, law_invert_twice, law_overwrite_frame, law_read_after_write,
    law_write_back, lemma_basis_state_step, lemma_overwrite_ignores_unused, overwritten, qubit_of_bit,
    restricted, ProductState,
};

pub use product_state_iter::ProductStateIter;
pub use qubit::Qubit;
pub use super_position::{
    amplitude_of, basis_amplitudes, empty_states_message, word_dimension, is_first_mismatch, law_state_amplitudes_read_back,
    power_of_two_message, probability_message, state_amplitudes, state_dimension_message,
    states_probability_message, trailing_zero_count, trailing_zeros, SuperPosition, SuperPositionIterator,
};

