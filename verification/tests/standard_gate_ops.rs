use quantr::standard_gate_ops::{cnot, pauli_x, swap, toffoli};
use quantr::states::ProductState;
use quantr::states::Qubit::{One, Zero};

#[test]
fn pauli_x_flips() {
    assert_eq!(pauli_x(Zero, 0u8, 1u8).get_amplitudes(), &[0, 1]);
    assert_eq!(pauli_x(One, 0u8, 1u8).get_amplitudes(), &[1, 0]);
}

#[test]
fn cnot_flips_the_target_under_the_control() {
    assert_eq!(cnot(Zero, Zero, 0u8, 1u8).get_amplitudes(), &[1, 0, 0, 0]);
    assert_eq!(cnot(Zero, One, 0u8, 1u8).get_amplitudes(), &[0, 1, 0, 0]);
    assert_eq!(cnot(One, Zero, 0u8, 1u8).get_amplitudes(), &[0, 0, 0, 1]);
    assert_eq!(cnot(One, One, 0u8, 1u8).get_amplitudes(), &[0, 0, 1, 0]);
}

#[test]
fn swap_exchanges() {
    assert_eq!(swap(Zero, One, 0u8, 1u8).get_amplitudes(), &[0, 0, 1, 0]);
    assert_eq!(swap(One, Zero, 0u8, 1u8).get_amplitudes(), &[0, 1, 0, 0]);
    assert_eq!(swap(One, One, 0u8, 1u8).get_amplitudes(), &[0, 0, 0, 1]);
}

#[test]
fn toffoli_flips_under_both_controls() {
    assert_eq!(toffoli(One, One, Zero, 0u8, 1u8).get_amplitudes(), &[0, 0, 0, 0, 0, 0, 0, 1]);
    assert_eq!(toffoli(One, One, One, 0u8, 1u8).get_amplitudes(), &[0, 0, 0, 0, 0, 0, 1, 0]);
    assert_eq!(toffoli(One, Zero, One, 0u8, 1u8).get_amplitudes(), &[0, 0, 0, 0, 0, 1, 0, 0]);
    assert_eq!(toffoli(Zero, One, One, 0u8, 1u8).get_amplitudes(), &[0, 0, 0, 1, 0, 0, 0, 0]);
    assert_eq!(toffoli(One, One, Zero, 0u8, 1u8).get_num_qubits(), 3);
}

#[test]
fn permutation_gates_undo_themselves() {
    let states = [Zero, One];
    for &a in &states {
        for &b in &states {
            let once = cnot(a, b, 0u8, 1u8);
            let index = once.get_amplitudes().iter().position(|&x| x == 1).unwrap();
            let mid = ProductState::binary_basis(index, 2);
            let twice = cnot(mid.get_unchecked(0), mid.get_unchecked(1), 0u8, 1u8);
            let back = twice.get_amplitudes().iter().position(|&x| x == 1).unwrap();
            assert_eq!(ProductState::binary_basis(back, 2).get_qubits(), &[a, b]);

            let swapped = swap(a, b, 0u8, 1u8);
            let index = swapped.get_amplitudes().iter().position(|&x| x == 1).unwrap();
            let mid = ProductState::binary_basis(index, 2);
            let again = swap(mid.get_unchecked(0), mid.get_unchecked(1), 0u8, 1u8);
            let back = again.get_amplitudes().iter().position(|&x| x == 1).unwrap();
            assert_eq!(ProductState::binary_basis(back, 2).get_qubits(), &[a, b]);
        }
    }
}
