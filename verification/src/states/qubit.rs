use vstd::prelude::*;

use super::product_state::ProductState;

verus! {

/// The fundamental unit in quantum computers, the qubit.
#[derive(Clone, Copy, Hash, PartialEq, Eq, Debug, Structural)]
pub enum Qubit {
    /// |0⟩
    Zero,
    /// |1⟩
    One,
}

impl Qubit {
    /// Defines the Kronecker product of two qubits: |a> ⊗ |b> = |ab>.
    pub fn kronecker_prod(self, other: Qubit) -> (res: ProductState)
        ensures
            res@ == seq![self, other],
    {
        let mut qubits: Vec<Qubit> = Vec::new();
        qubits.push(self);
        qubits.push(other);
        ProductState { qubits }
    }

    /// Converts the [Qubit] to a [ProductState] of one qubit.
    pub fn into_state(self) -> (res: ProductState)
        ensures
            res@ == seq![self],
    {
        let mut qubits: Vec<Qubit> = Vec::new();
        qubits.push(self);
        ProductState { qubits }
    }
}

} // verus!
