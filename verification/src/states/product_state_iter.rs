use vstd::prelude::*;

use super::product_state::ProductState;
use super::qubit::Qubit;

verus! {

/// An iterator of the qubits that label the product state in the computational basis, from left
/// to right in bra-ket notation.
///
/// After it has returned `None` it starts over from the left-most qubit.
pub struct ProductStateIter<'a> {
    state: &'a ProductState,
    index: usize,
}

impl<'a> ProductStateIter<'a> {
    /// The product state whose qubits are iterated.
    pub closed spec fn state(&self) -> Seq<Qubit> {
        self.state@
    }

    /// The position of the qubit that the next call returns.
    pub closed spec fn position(&self) -> nat {
        self.index as nat
    }

    /// Returns the next qubit, or `None` once every qubit was returned, in which case the
    /// iterator is reset to the left-most qubit.
    pub fn next(&mut self) -> (res: Option<Qubit>)
        ensures
            final(self).state() == old(self).state(),
            old(self).position() < old(self).state().len() ==> {
                &&& res == Some(old(self).state()[old(self).position() as int])
                &&& final(self).position() == old(self).position() + 1
            },
            old(self).position() >= old(self).state().len() ==> {
                &&& res is None
                &&& final(self).position() == 0
            },
    {
        if self.index < self.state.num_qubits() {
            let qubit = self.state.get_unchecked(self.index);
            self.index = self.index + 1;
            Some(qubit)
        } else {
            self.index = 0;
            None
        }
    }
}

impl ProductState {
    /// An iterator over the qubits of the product state, from left to right.
    pub fn into_iter<'a>(&'a self) -> (res: ProductStateIter<'a>)
        ensures
            res.state() == self@,
            res.position() == 0,
    {
        ProductStateIter { state: self, index: 0 }
    }
}

} // verus!
