use num_complex::Complex64;
use quantr::states::{ProductState, Qubit, SuperPosition};
use std::collections::HashMap;
use std::f64::consts::FRAC_1_SQRT_2;

const ZERO: Complex64 = Complex64::new(0f64, 0f64);
const ONE: Complex64 = Complex64::new(1f64, 0f64);

fn re(x: f64) -> Complex64 {
    Complex64::new(x, 0f64)
}

fn im(x: f64) -> Complex64 {
    Complex64::new(0f64, x)
}

fn register() -> SuperPosition<Complex64> {
    let mut sp = SuperPosition::zero_state(2, ZERO, ONE).unwrap();
    sp.replace_amplitudes(&[ZERO, re(FRAC_1_SQRT_2), im(-FRAC_1_SQRT_2), ZERO], true)
        .unwrap();
    sp
}

#[test]
fn retrieve_amplitude_from_state() {
    assert_eq!(
        register()
            .get_amplitude_from_state(ProductState::new_unchecked(&[Qubit::Zero, Qubit::One]))
            .unwrap(),
        re(FRAC_1_SQRT_2)
    )
}

#[test]
fn retrieve_amplitude_from_list_pos() {
    assert_eq!(register().get_amplitude(2).unwrap(), im(-FRAC_1_SQRT_2))
}

#[test]
fn sets_amplitude_from_states() {
    let states: HashMap<ProductState, Complex64> = HashMap::from([
        (
            ProductState::new_unchecked(&[Qubit::Zero, Qubit::One]),
            re(FRAC_1_SQRT_2),
        ),
        (
            ProductState::new_unchecked(&[Qubit::One, Qubit::Zero]),
            im(-FRAC_1_SQRT_2),
        ),
    ]);
    let pairs: Vec<(ProductState, Complex64)> = states.into_iter().collect();

    assert_eq!(
        SuperPosition::from_amplitudes(&[ZERO, re(FRAC_1_SQRT_2), im(-FRAC_1_SQRT_2), ZERO], true)
            .unwrap()
            .get_amplitudes(),
        SuperPosition::from_state_amplitudes(&pairs, ZERO)
            .unwrap()
            .get_amplitudes()
    )
}

#[test]
#[should_panic]
fn sets_amplitude_from_states_wrong_dimension() {
    let states: HashMap<ProductState, Complex64> = HashMap::from([
        (
            ProductState::new_unchecked(&[Qubit::Zero, Qubit::One]),
            re(FRAC_1_SQRT_2),
        ),
        (
            ProductState::new_unchecked(&[Qubit::One, Qubit::Zero, Qubit::One]),
            im(-FRAC_1_SQRT_2),
        ),
    ]);
    let pairs: Vec<(ProductState, Complex64)> = states.into_iter().collect();

    SuperPosition::from_state_amplitudes(&pairs, ZERO).unwrap();
}

#[test]
#[should_panic]
fn catches_retrieve_amplitude_from_wrong_state() {
    register()
        .get_amplitude_from_state(ProductState::new_unchecked(&[
            Qubit::Zero,
            Qubit::One,
            Qubit::One,
        ]))
        .unwrap();
}

#[test]
#[should_panic]
fn catches_retrieve_amplitude_from_wrong_list_pos() {
    register().get_amplitude(4).unwrap();
}

#[test]
fn zero_state_needs_a_qubit() {
    let err = SuperPosition::zero_state(0, ZERO, ONE).unwrap_err();
    assert_eq!(err.message, "The number of qubits must be non-zero.");
    let sp = SuperPosition::zero_state(3, 0u8, 1u8).unwrap();
    assert_eq!(sp.get_amplitudes(), &[1, 0, 0, 0, 0, 0, 0, 0]);
    assert_eq!(sp.get_num_qubits(), 3);
    assert_eq!(sp.get_dimension(), 8);
}

#[test]
fn wrong_state_dimension_message() {
    let err = register()
        .get_amplitude_from_state(ProductState::new_unchecked(&[Qubit::Zero, Qubit::One, Qubit::One]))
        .unwrap_err();
    assert_eq!(
        err.message,
        "Unable to retreive product state, |\"011\"> with dimension 3. The superposition is a linear combination of states with different dimension. These dimensions should be equal."
    );
}

#[test]
fn amplitudes_must_be_a_power_of_two_and_conserve_probability() {
    let err = SuperPosition::from_amplitudes(&[1u8, 0, 0], true).unwrap_err();
    assert_eq!(
        err.message,
        "The length of the array must be of the form 2**n where n is an integer."
    );
    let err = SuperPosition::from_amplitudes(&[1u8, 0], false).unwrap_err();
    assert_eq!(
        err.message,
        "Slice given to set amplitudes in super position does not conserve probability, the absolute square sum of the coefficents must be one."
    );
    let sp = SuperPosition::from_amplitudes(&[0u8, 0, 1, 0, 0, 0, 0, 0], true).unwrap();
    assert_eq!(sp.get_num_qubits(), 3);
}

#[test]
fn replace_amplitudes_checks_length_then_probability() {
    let mut sp = SuperPosition::zero_state(1, 0u8, 1u8).unwrap();
    let err = sp.replace_amplitudes(&[0, 0, 1], true).unwrap_err();
    assert_eq!(
        err.message,
        "The slice given to set the amplitudes in the computational basis has length 3, when it should have length 2."
    );
    let err = sp.replace_amplitudes(&[0, 1], false).unwrap_err();
    assert_eq!(
        err.message,
        "Slice given to set amplitudes in super position does not conserve probability, the absolute square sum of the coefficents must be one."
    );
    assert_eq!(sp.get_amplitudes(), &[1, 0]);
    sp.replace_amplitudes(&[0, 1], true).unwrap();
    assert_eq!(sp.get_amplitudes(), &[0, 1]);
}

#[test]
fn unchecked_constructors_keep_the_amplitudes() {
    let sp = SuperPosition::new_with_amplitudes_unchecked(&[5u8, 6, 7, 8]);
    assert_eq!(sp.get_num_qubits(), 2);
    assert_eq!(sp.get_amplitudes(), &[5, 6, 7, 8]);
    let mut other = sp.clone();
    other.set_amplitudes_unchecked(&[9, 9, 9, 9]);
    assert_eq!(other.get_amplitudes(), &[9, 9, 9, 9]);
    assert_eq!(sp.get_amplitudes(), &[5, 6, 7, 8]);
    assert_eq!(trailing(12), 2);
}

fn trailing(x: usize) -> usize {
    quantr::states::trailing_zeros(x)
}

#[test]
fn state_amplitudes_errors() {
    let err = SuperPosition::<u8>::from_state_amplitudes(&[], 0).unwrap_err();
    assert_eq!(
        err.message,
        "An empty HashMap was given. A superposition must have at least one non-zero state."
    );
    let pairs = vec![
        (ProductState::new_unchecked(&[Qubit::One, Qubit::Zero]), 3u8),
        (ProductState::new_unchecked(&[Qubit::One]), 4u8),
    ];
    let err = SuperPosition::from_state_amplitudes(&pairs, 0).unwrap_err();
    assert_eq!(
        err.message,
        "The first state has product dimension of 2, whilst the state, |1>, found as a key in the HashMap has dimension 1."
    );
}

#[test]
fn replace_state_amplitudes_places_each_state() {
    let mut sp = SuperPosition::zero_state(2, 0u8, 1u8).unwrap();
    let pairs = vec![
        (ProductState::new_unchecked(&[Qubit::One, Qubit::One]), 7u8),
        (ProductState::new_unchecked(&[Qubit::Zero, Qubit::One]), 5u8),
    ];
    let err = sp.replace_state_amplitudes(&pairs, 0, false).unwrap_err();
    assert_eq!(
        err.message,
        "The total sum of the absolute square of all amplitudes does not equal 1. That is, the superpositon does not conserve probability."
    );
    assert_eq!(sp.get_amplitudes(), &[1, 0, 0, 0]);
    sp.replace_state_amplitudes(&pairs, 0, true).unwrap();
    assert_eq!(sp.get_amplitudes(), &[0, 5, 0, 7]);
    let wrong = vec![(ProductState::new_unchecked(&[Qubit::One]), 2u8)];
    let err = sp.replace_state_amplitudes(&wrong, 0, true).unwrap_err();
    assert_eq!(
        err.message,
        "The first state has product dimension of 2, whilst the state, |1>, found as a key in the HashMap has dimension 1."
    );
    let err = sp.replace_state_amplitudes(&[], 0, true).unwrap_err();
    assert_eq!(
        err.message,
        "An empty HashMap was given. A superposition must have at least one non-zero state."
    );
    sp.set_amplitudes_from_states_unchecked(&wrong, 0);
    assert_eq!(sp.get_amplitudes(), &[0, 0, 0, 0]);
}

#[test]
fn reset_to_zero_state_keeps_the_length() {
    let mut sp = SuperPosition::from_amplitudes(&[0u8, 1, 0, 0], true).unwrap();
    sp.reset_to_zero_state(0, 1);
    assert_eq!(sp.get_amplitudes(), &[1, 0, 0, 0]);
}

#[test]
fn iterates_states_with_amplitudes() {
    let sp = SuperPosition::from_amplitudes(&[0u8, 7, 7, 0], true).unwrap();
    let mut iter = sp.into_iter();
    assert_eq!(
        iter.next(),
        Some((ProductState::new(&[Qubit::Zero, Qubit::Zero]).unwrap(), 0))
    );
    assert_eq!(
        iter.next(),
        Some((ProductState::new(&[Qubit::Zero, Qubit::One]).unwrap(), 7))
    );
    assert_eq!(
        iter.next(),
        Some((ProductState::new(&[Qubit::One, Qubit::Zero]).unwrap(), 7))
    );
    assert_eq!(
        iter.next(),
        Some((ProductState::new(&[Qubit::One, Qubit::One]).unwrap(), 0))
    );
    assert_eq!(iter.next(), None);
    assert_eq!(iter.next().map(|(s, _)| s.to_string()), Some("00".to_string()));
}

#[test]
fn basis_state_superposition() {
    let sp = SuperPosition::from_basis_state(
        &ProductState::new_unchecked(&[Qubit::One, Qubit::One, Qubit::Zero]),
        0u8,
        1u8,
    );
    assert_eq!(sp.get_amplitudes(), &[0, 0, 0, 0, 0, 0, 1, 0]);
}

#[test]
fn measurement_take_unwraps_either_kind() {
    assert_eq!(quantr::Measurement::Observable(3u8).take(), 3);
    assert_eq!(quantr::Measurement::NonObservable(4u8).take(), 4);
}

#[test]
fn error_text_is_tagged() {
    let err = SuperPosition::zero_state(0, 0u8, 1u8).unwrap_err();
    assert_eq!(
        err.to_string(),
        "\x1b[91m[Quantr Error] The number of qubits must be non-zero.\x1b[0m "
    );
}

#[test]
fn state_amplitudes_read_back() {
    let mut sp = SuperPosition::zero_state(3, ZERO, ONE).unwrap();
    let listed = ProductState::new_unchecked(&[Qubit::One, Qubit::Zero, Qubit::One]);
    let pairs = vec![
        (listed.clone(), im(FRAC_1_SQRT_2)),
        (ProductState::new_unchecked(&[Qubit::Zero, Qubit::Zero, Qubit::One]), re(FRAC_1_SQRT_2)),
    ];
    sp.replace_state_amplitudes(&pairs, ZERO, true).unwrap();
    assert_eq!(sp.get_amplitude_from_state(listed).unwrap(), im(FRAC_1_SQRT_2));
    assert_eq!(
        sp.get_amplitude_from_state(ProductState::new_unchecked(&[Qubit::One, Qubit::One, Qubit::One]))
            .unwrap(),
        ZERO
    );
}

#[test]
fn many_qubit_state_gets_the_dimension_error() {
    let err = register()
        .get_amplitude_from_state(ProductState::new_unchecked(&[Qubit::Zero; 40]))
        .unwrap_err();
    assert_eq!(
        err.message,
        format!(
            "Unable to retreive product state, |\"{}\"> with dimension 40. The superposition is a linear combination of states with different dimension. These dimensions should be equal.",
            "0".repeat(40)
        )
    );
}

#[test]
fn state_amplitudes_on_a_length_that_is_not_a_power_of_two() {
    let pairs = vec![
        (ProductState::new_unchecked(&[Qubit::Zero, Qubit::One]), 5u8),
        (ProductState::new_unchecked(&[Qubit::One, Qubit::One]), 7u8),
    ];
    let mut sp = SuperPosition::new_with_amplitudes_unchecked(&[1u8; 12]);
    assert_eq!(sp.get_num_qubits(), 2);
    sp.replace_state_amplitudes(&pairs, 0, true).unwrap();
    assert_eq!(sp.get_amplitudes(), &[0, 5, 0, 7, 0, 5, 0, 7, 0, 5, 0, 7]);

    let mut unchecked = SuperPosition::new_with_amplitudes_unchecked(&[1u8; 12]);
    unchecked.set_amplitudes_from_states_unchecked(&pairs, 0);
    assert_eq!(unchecked.get_amplitudes(), &[0, 5, 0, 7, 0, 0, 0, 0, 0, 0, 0, 0]);
}

#[test]
fn state_dimension_is_read_from_the_number_of_amplitudes() {
    let mut sp = SuperPosition::new_with_amplitudes_unchecked(&[1u8; 8]);
    sp.set_amplitudes_unchecked(&[1u8; 4]);
    assert_eq!(sp.get_num_qubits(), 3);
    let pairs = vec![(ProductState::new_unchecked(&[Qubit::One, Qubit::Zero]), 9u8)];
    sp.replace_state_amplitudes(&pairs, 0, true).unwrap();
    assert_eq!(sp.get_amplitudes(), &[0, 0, 9, 0]);
    assert_eq!(sp.get_num_qubits(), 3);
}
