//! The standard gates that permute the states of the computational basis.
//!
//! Each of them maps a basis state to a single basis state, so its image is a superposition
//! with amplitude `one` on that state and `zero` elsewhere; the gates whose amplitudes are
//! other numbers are defined by the caller that knows the amplitude type.

use vstd::prelude::*;

use crate::states::{basis_amplitudes, basis_index, flipped, ProductState, Qubit, SuperPosition};

verus! {

/// The qubit `target`, flipped when `control` is `|1>`.
pub open spec fn controlled_flip(control: Qubit, target: Qubit) -> Qubit {
    if control == Qubit::One {
        flipped(target)
    } else {
        target
    }
}

/// The qubit `target`, flipped when both `first` and `second` are `|1>`.
pub open spec fn doubly_controlled_flip(first: Qubit, second: Qubit, target: Qubit) -> Qubit {
    if first == Qubit::One {
        controlled_flip(second, target)
    } else {
        target
    }
}

/// The permutation gates undo themselves: mapping a basis state twice by Pauli-X, the
/// controlled not, the swap or the Toffoli gate gives back the state.
pub proof fn law_permutation_gates_self_inverse(a: Qubit, b: Qubit, c: Qubit)
    ensures
        flipped(flipped(a)) == a,
        controlled_flip(a, controlled_flip(a, b)) == b,
        seq![b, a].reverse() == seq![a, b],
        doubly_controlled_flip(a, b, doubly_controlled_flip(a, b, c)) == c,
{
    assert(seq![b, a].reverse() =~= seq![a, b]);
}

/// The controlled not flips its target exactly when the control is `|1>`, and the Toffoli gate
/// flips its target exactly when both controls are `|1>`; otherwise the target is left alone. A
/// flip always changes the qubit.
pub proof fn law_controlled_flips(a: Qubit, b: Qubit, c: Qubit)
    ensures
        flipped(c) != c,
        (controlled_flip(a, b) != b) <==> a == Qubit::One,
        (doubly_controlled_flip(a, b, c) != c) <==> (a == Qubit::One && b == Qubit::One),
        (a == Qubit::Zero || b == Qubit::Zero) ==> doubly_controlled_flip(a, b, c) == c,
        (a == Qubit::One && b == Qubit::One) ==> doubly_controlled_flip(a, b, c) == flipped(c),
{
}

/// The basis qubit other than `q`.
fn flip(q: Qubit) -> (res: Qubit)
    ensures
        res == flipped(q),
{
    match q {
        Qubit::Zero => Qubit::One,
        Qubit::One => Qubit::Zero,
    }
}

/// `target` flipped when `control` is `|1>`.
fn flip_if(control: Qubit, target: Qubit) -> (res: Qubit)
    ensures
        res == controlled_flip(control, target),
{
    match control {
        Qubit::One => flip(target),
        Qubit::Zero => target,
    }
}

/// Pauli-X on a basis qubit: `|a> -> |not a>`.
pub fn pauli_x<C: Copy>(register: Qubit, zero: C, one: C) -> (res: SuperPosition<C>)
    ensures
        res.dim() == 1,
        res.amps() == basis_amplitudes(1, basis_index(seq![flipped(register)]), zero, one),
        seq![flipped(register)] != seq![register],
{
    let state = flip(register).into_state();
    SuperPosition::from_basis_state(&state, zero, one)
}

/// Controlled not on two basis qubits, the control first: `|a, b> -> |a, a xor b>`.
pub fn cnot<C: Copy>(qubit_one: Qubit, qubit_two: Qubit, zero: C, one: C) -> (res: SuperPosition<C>)
    ensures
        res.dim() == 2,
        res.amps() == basis_amplitudes(
            2,
            basis_index(seq![qubit_one, controlled_flip(qubit_one, qubit_two)]),
            zero,
            one,
        ),
        qubit_one == Qubit::Zero ==> res.amps() == basis_amplitudes(
            2,
            basis_index(seq![qubit_one, qubit_two]),
            zero,
            one,
        ),
        qubit_one == Qubit::One ==> res.amps() == basis_amplitudes(
            2,
            basis_index(seq![qubit_one, flipped(qubit_two)]),
            zero,
            one,
        ),
{
    let state = qubit_one.kronecker_prod(flip_if(qubit_one, qubit_two));
    SuperPosition::from_basis_state(&state, zero, one)
}

/// Swap of two basis qubits: `|a, b> -> |b, a>`.
pub fn swap<C: Copy>(qubit_one: Qubit, qubit_two: Qubit, zero: C, one: C) -> (res: SuperPosition<C>)
    ensures
        res.dim() == 2,
        res.amps() == basis_amplitudes(2, basis_index(seq![qubit_two, qubit_one]), zero, one),
{
    let state = qubit_two.kronecker_prod(qubit_one);
    SuperPosition::from_basis_state(&state, zero, one)
}

/// Toffoli on three basis qubits, the two controls first: `|a, b, c> -> |a, b, (a and b) xor c>`.
pub fn toffoli<C: Copy>(qubit_one: Qubit, qubit_two: Qubit, qubit_three: Qubit, zero: C, one: C) -> (res: SuperPosition<C>)
    ensures
        res.dim() == 3,
        res.amps() == basis_amplitudes(
            3,
            basis_index(
                seq![qubit_one, qubit_two, doubly_controlled_flip(qubit_one, qubit_two, qubit_three)],
            ),
            zero,
            one,
        ),
        (qubit_one == Qubit::Zero || qubit_two == Qubit::Zero) ==> res.amps() == basis_amplitudes(
            3,
            basis_index(seq![qubit_one, qubit_two, qubit_three]),
            zero,
            one,
        ),
        (qubit_one == Qubit::One && qubit_two == Qubit::One) ==> res.amps() == basis_amplitudes(
            3,
            basis_index(seq![qubit_one, qubit_two, flipped(qubit_three)]),
            zero,
            one,
        ),
{
    let target = match qubit_one {
        Qubit::One => flip_if(qubit_two, qubit_three),
        Qubit::Zero => qubit_three,
    };
    let state = qubit_one.kronecker_prod(qubit_two).kronecker_prod(target);
    proof {
        assert(state@ =~= seq![qubit_one, qubit_two, target]);
    }
    SuperPosition::from_basis_state(&state, zero, one)
}

} // verus!
