use num_complex::Complex64;
use quantr::states::{ProductState, Qubit, SuperPosition};
use std::collections::HashMap;

type CustomFn = fn(ProductState) -> Option<SuperPosition<Complex64>>;
type Gate = quantr::Gate<f64, CustomFn>;
type Circuit = quantr::Circuit<f64, CustomFn, Complex64>;

const ZERO: Complex64 = Complex64::new(0f64, 0f64);
const ONE: Complex64 = Complex64::new(1f64, 0f64);

fn example_cnot(prod: ProductState) -> Option<SuperPosition<Complex64>> {
    let input_register: [Qubit; 2] = [prod.qubits[0], prod.qubits[1]];
    Some(
        SuperPosition::from_amplitudes(
            match input_register {
                [Qubit::Zero, Qubit::Zero] => return None,
                [Qubit::Zero, Qubit::One] => return None,
                [Qubit::One, Qubit::Zero] => &[ZERO, ZERO, ZERO, ONE],
                [Qubit::One, Qubit::One] => &[ZERO, ZERO, ONE, ZERO],
            },
            true,
        )
        .unwrap(),
    )
}

#[test]
#[should_panic]
fn catches_overlapping_nodes_custom_gate() {
    let mut quantum_circuit = Circuit::new(3).unwrap();
    quantum_circuit
        .add_gates(&[Gate::Id, Gate::Custom(example_cnot, vec![1], "X".to_string()), Gate::Id])
        .unwrap();
}

#[test]
#[should_panic]
fn catches_overlapping_control_nodes() {
    let mut quantum_circuit = Circuit::new(3).unwrap();
    quantum_circuit
        .add_gates(&[Gate::CNot(0), Gate::Id, Gate::Id])
        .unwrap();
}

#[test]
fn pushes_multi_gates() {
    let mut quantum_circuit = Circuit::new(3).unwrap();
    quantum_circuit
        .add_gates(&[Gate::CNot(2), Gate::CNot(0), Gate::H])
        .unwrap()
        .add_gates(&[Gate::Toffoli(1, 2), Gate::H, Gate::CNot(0)])
        .unwrap();

    let correct_circuit_layout: Vec<Gate> = vec![
        Gate::Id, Gate::Id, Gate::H,
        Gate::CNot(2), Gate::Id, Gate::Id,
        Gate::Id, Gate::CNot(0), Gate::Id,
        Gate::Id, Gate::H, Gate::Id,
        Gate::Toffoli(1, 2), Gate::Id, Gate::Id,
        Gate::Id, Gate::Id, Gate::CNot(0)];

    assert_eq!(correct_circuit_layout, quantum_circuit.get_gates());
}

#[test]
fn pushes_multi_gates_using_vec() {
    let mut quantum_circuit = Circuit::new(3).unwrap();
    quantum_circuit
        .add_gates_with_positions(HashMap::from([
            (2, Gate::H),
            (0, Gate::CNot(2)),
            (1, Gate::CNot(0)),
        ]))
        .unwrap()
        .add_gates_with_positions(HashMap::from([
            (2, Gate::CNot(0)),
            (0, Gate::Toffoli(1, 2)),
            (1, Gate::H),
        ]))
        .unwrap();

    let correct_circuit_layout: Vec<Gate> = vec![
        Gate::Id, Gate::Id, Gate::H,
        Gate::CNot(2), Gate::Id, Gate::Id,
        Gate::Id, Gate::CNot(0), Gate::Id,
        Gate::Id, Gate::H, Gate::Id,
        Gate::Toffoli(1, 2), Gate::Id, Gate::Id,
        Gate::Id, Gate::Id, Gate::CNot(0)];

    assert_eq!(correct_circuit_layout, quantum_circuit.get_gates());
}

#[test]
#[should_panic]
fn catches_overlapping_control_nodes_using_vec() {
    let mut quantum_circuit = Circuit::new(3).unwrap();
    quantum_circuit
        .add_gates_with_positions(HashMap::from([
            (2, Gate::H),
            (0, Gate::CNot(0)),
            (1, Gate::CNot(0)),
        ]))
        .unwrap();
}

#[test]
#[should_panic]
fn control_node_greater_than_circuit_size() {
    let mut quantum_circuit = Circuit::new(3).unwrap();
    quantum_circuit
        .add_gates_with_positions(HashMap::from([
            (2, Gate::H),
            (0, Gate::CNot(2)),
            (1, Gate::CNot(3)),
        ]))
        .unwrap();
}

#[test]
fn add_gates_to_circuit_with_vec() {
    let mut quantum_circuit = Circuit::new(2).unwrap();
    quantum_circuit.add_gates(&[Gate::Id, Gate::X]).unwrap();

    assert!(vec![Gate::Id, Gate::X]
        .iter()
        .all(|item| quantum_circuit.get_gates().contains(item)));
}

#[test]
fn add_repeating_gates_to_circuits() {
    let mut circuit = Circuit::new(5).unwrap();
    circuit.add_repeating_gate(Gate::H, &[0, 1, 2, 3, 4]).unwrap();

    assert!(vec![Gate::H; 5]
        .iter()
        .all(|item| circuit.get_gates().contains(item)));
}

#[test]
fn add_gates_to_circuit_with_positions() {
    let mut quantum_circuit = Circuit::new(3).unwrap();
    quantum_circuit
        .add_gates_with_positions(HashMap::from([(0, Gate::X), (2, Gate::H)]))
        .unwrap();

    assert!(vec![Gate::X, Gate::Id, Gate::H]
        .iter()
        .all(|item| quantum_circuit.get_gates().contains(item)));
}

#[test]
#[should_panic]
fn catches_repeating_positions() {
    let mut circuit = Circuit::new(4).unwrap();
    circuit.add_repeating_gate(Gate::X, &[0, 1, 1, 3]).unwrap();
}

#[test]
#[should_panic]
fn custom_non_ascii_name() {
    let mut circuit = Circuit::new(3).unwrap();

    circuit
        .add_gate(Gate::Custom(example_cnot, vec![0], "NonAscii†".to_string()), 1)
        .unwrap();
}

#[test]
#[should_panic]
fn custom_register_wrong_dimension() {
    let mut circuit = Circuit::new(3).unwrap();
    let register: SuperPosition<Complex64> = SuperPosition::from_basis_state(
        &ProductState::new_unchecked(&[Qubit::One, Qubit::Zero]),
        ZERO,
        ONE,
    );
    circuit.add_gate(Gate::X, 1).unwrap().change_register(register).unwrap();
}

#[test]
fn new_circuit_needs_a_wire() {
    let err = Circuit::new(0).err().unwrap();
    assert_eq!(err.message, "The initialised circuit must have at least one wire.");
    let circuit = Circuit::new(4).unwrap();
    assert_eq!(circuit.get_num_qubits(), 4);
    assert!(circuit.get_gates().is_empty());
    assert!(circuit.get_register().is_none());
    assert!(!circuit.get_print_progress());
}

#[test]
fn add_gate_places_one_column() {
    let mut circuit = Circuit::new(3).unwrap();
    circuit.add_gate(Gate::H, 1).unwrap();
    assert_eq!(circuit.get_gates(), &[Gate::Id, Gate::H, Gate::Id]);
    let err = circuit.add_gate(Gate::X, 3).err().unwrap();
    assert_eq!(
        err.message,
        "The position, 3, is out of bounds for the circuit with 3 qubits."
    );
    assert_eq!(circuit.get_gates().len(), 3);
}

#[test]
fn add_gates_needs_one_gate_per_wire() {
    let mut circuit = Circuit::new(3).unwrap();
    let err = circuit.add_gates(&[Gate::H, Gate::H]).err().unwrap();
    assert_eq!(
        err.message,
        "The number of gates, 2, does not match the number of wires, 3. All wires must have gates added."
    );
    assert!(circuit.get_gates().is_empty());
}

#[test]
fn refused_columns_leave_the_circuit_unchanged() {
    let mut circuit = Circuit::new(3).unwrap();
    circuit.add_gates(&[Gate::H, Gate::Id, Gate::X]).unwrap();
    let before: Vec<Gate> = circuit.get_gates().to_vec();

    let err = circuit.add_gates(&[Gate::CNot(4), Gate::Id, Gate::Id]).err().unwrap();
    assert_eq!(
        err.message,
        "The control node at position 4, is greater than the umnber of qubits 3."
    );
    let err = circuit.add_gates(&[Gate::Id, Gate::Toffoli(0, 0), Gate::Id]).err().unwrap();
    assert_eq!(err.message, "The X gate has overlapping control nodes.");
    let err = circuit.add_gates(&[Gate::Id, Gate::Id, Gate::CNot(2)]).err().unwrap();
    assert_eq!(
        err.message,
        "The X gate has a control node that equals its own position 2."
    );
    assert_eq!(circuit.get_gates(), before.as_slice());
}

#[test]
fn repeating_gate_fills_the_positions() {
    let mut circuit = Circuit::new(4).unwrap();
    circuit.add_repeating_gate(Gate::Y, &[0, 2]).unwrap();
    assert_eq!(circuit.get_gates(), &[Gate::Y, Gate::Id, Gate::Y, Gate::Id]);
    let err = circuit.add_repeating_gate(Gate::X, &[3, 1, 3]).err().unwrap();
    assert_eq!(
        err.message,
        "Attempted to add more than one gate onto a single wire. The positions in [3, 1, 3] must all differ."
    );
    assert_eq!(circuit.get_gates().len(), 4);
}

#[test]
fn gates_with_positions_out_of_range_are_refused() {
    let mut circuit = Circuit::new(2).unwrap();
    let err = circuit
        .add_gates_with_positions(HashMap::from([(5, Gate::X)]))
        .err().unwrap();
    assert_eq!(
        err.message,
        "The position, 5, is out of bounds for the circuit with 2 qubits."
    );
    assert!(circuit.get_gates().is_empty());
}

#[test]
fn change_register_checks_the_dimension() {
    let mut circuit = Circuit::new(2).unwrap();
    let register = SuperPosition::from_basis_state(
        &ProductState::new_unchecked(&[Qubit::One, Qubit::Zero]),
        ZERO,
        ONE,
    );
    circuit.change_register(register).unwrap();
    assert_eq!(
        circuit.get_register().unwrap().get_amplitudes(),
        &[ZERO, ZERO, ONE, ZERO]
    );
    let taken = circuit.take_register().unwrap();
    assert_eq!(taken.get_num_qubits(), 2);
    assert!(circuit.get_register().is_none());

    let wrong = SuperPosition::zero_state(3, ZERO, ONE).unwrap();
    let err = circuit.change_register(wrong).err().unwrap();
    assert_eq!(
        err.message,
        "The custom register has a product state dimension of 3, while the number of qubits is 2. These must equal each other."
    );
}

#[test]
fn custom_gate_with_control_gets_its_own_column() {
    let mut circuit = Circuit::new(3).unwrap();
    circuit
        .add_gates(&[
            Gate::H,
            Gate::Custom(example_cnot, vec![2], "cNot".to_string()),
            Gate::X,
        ])
        .unwrap();
    let gates = circuit.get_gates();
    assert_eq!(gates.len(), 6);
    assert_eq!(&gates[0..3], &[Gate::H, Gate::Id, Gate::X]);
    assert_eq!(gates[3], Gate::Id);
    assert!(gates[4].is_custom_gate());
    assert_eq!(gates[4].get_nodes(), Some(vec![2]));
    assert_eq!(gates[4].get_name(), "cNot");
    assert_eq!(gates[5], Gate::Id);
}

#[test]
fn print_progress_is_a_switch() {
    let mut circuit = Circuit::new(1).unwrap();
    circuit.set_print_progress(true);
    assert!(circuit.get_print_progress());
    circuit.set_print_progress(false);
    assert!(!circuit.get_print_progress());
}

#[test]
fn simulated_circuit_keeps_gates_and_register() {
    let mut circuit = Circuit::new(2).unwrap();
    circuit.add_gate(Gate::X, 0).unwrap();
    let register = SuperPosition::from_basis_state(
        &ProductState::new_unchecked(&[Qubit::One, Qubit::Zero]),
        ZERO,
        ONE,
    );
    let copy = circuit.to_simulated(register.clone());
    assert_eq!(copy.get_circuit_gates().as_slice(), circuit.get_gates());

    let mut simulated = circuit.into_simulated(register);
    assert_eq!(simulated.get_num_qubits(), 2);
    assert_eq!(simulated.get_circuit_gates(), &vec![Gate::X, Gate::Id]);
    assert!(!simulated.get_warnings_disabled());
    simulated.print_warnings(false);
    assert!(simulated.get_warnings_disabled());
    simulated.set_print_progress(true);
    assert!(simulated.get_print_progress());
    match simulated.get_state() {
        quantr::Measurement::NonObservable(state) => {
            assert_eq!(state.get_amplitudes(), &[ZERO, ZERO, ONE, ZERO])
        }
        quantr::Measurement::Observable(_) => panic!("the state is not an observable"),
    }

    let reset = simulated.into_reset_circuit(ZERO, ONE);
    assert_eq!(reset.get_gates(), &[Gate::X, Gate::Id]);
    assert_eq!(
        reset.get_register().unwrap().get_amplitudes(),
        &[ONE, ZERO, ZERO, ZERO]
    );
}

#[test]
fn acting_positions_list_controls_then_target() {
    assert_eq!(Gate::Toffoli(3, 0).acting_positions(1), vec![3, 0, 1]);
    assert_eq!(Gate::H.acting_positions(2), vec![2]);
    assert_eq!(Gate::Id.get_nodes(), None);
    assert!(Gate::Id.is_identity());
    assert!(Gate::H.is_single_gate());
    assert!(!Gate::Swap(1).is_single_gate());
    assert_eq!(Gate::Swap(1).get_name(), "Sw");
}

#[test]
fn warns_of_custom_gates_unless_silenced() {
    let mut circuit = Circuit::new(2).unwrap();
    circuit.add_gate(Gate::Custom(example_cnot, vec![0], "c".to_string()), 1).unwrap();
    let register = SuperPosition::zero_state(2, ZERO, ONE).unwrap();
    let mut simulated = circuit.into_simulated(register);
    assert!(simulated.warns_of_custom_gates());
    simulated.print_warnings(false);
    assert!(!simulated.warns_of_custom_gates());

    let mut plain = Circuit::new(2).unwrap();
    plain.add_gate(Gate::H, 1).unwrap();
    let register = SuperPosition::zero_state(2, ZERO, ONE).unwrap();
    assert!(!plain.into_simulated(register).warns_of_custom_gates());
}

#[test]
fn gate_columns_stay_whole() {
    let mut circuit = Circuit::new(3).unwrap();
    circuit
        .add_gates(&[Gate::CNot(1), Gate::H, Gate::Toffoli(0, 1)])
        .unwrap()
        .add_gate(Gate::Z, 2)
        .unwrap();
    assert_eq!(circuit.get_gates().len() % 3, 0);
    for column in circuit.get_gates().chunks(3) {
        let controlled = column.iter().filter(|g| !g.is_single_gate()).count();
        if controlled > 0 {
            assert_eq!(controlled, 1);
            assert_eq!(column.iter().filter(|g| !g.is_identity()).count(), 1);
        }
    }
}

#[test]
fn non_ascii_custom_names_are_refused() {
    let mut circuit = Circuit::new(3).unwrap();
    let err = circuit
        .add_gate(Gate::Custom(example_cnot, vec![0], "NonAscii†".to_string()), 1)
        .err()
        .unwrap();
    assert_eq!(
        err.message,
        "The custom function name, NonAscii†, does not only use ASCII chars. This could lead to problems in printing the circuit diagram. This warning will be promoted to an Error in the next major release."
    );
    assert!(circuit.get_gates().is_empty());
}

#[test]
fn first_offending_node_is_reported() {
    let mut circuit = Circuit::new(3).unwrap();
    let err = circuit
        .add_gates(&[Gate::Id, Gate::Custom(example_cnot, vec![0, 7, 9], "c".to_string()), Gate::Id])
        .err()
        .unwrap();
    assert_eq!(
        err.message,
        "The control node at position 7, is greater than the umnber of qubits 3."
    );
}

#[test]
fn next_gate_to_apply_skips_identities() {
    let mut circuit = Circuit::new(3).unwrap();
    circuit
        .add_gate(Gate::H, 2)
        .unwrap()
        .add_gates(&[Gate::X, Gate::Id, Gate::Y])
        .unwrap();
    assert_eq!(circuit.next_gate_to_apply(0), Some((2, 2)));
    assert_eq!(circuit.next_gate_to_apply(3), Some((3, 0)));
    assert_eq!(circuit.next_gate_to_apply(4), Some((5, 2)));
    assert_eq!(circuit.next_gate_to_apply(6), None);
    assert_eq!(circuit.next_gate_to_apply(100), None);
}

#[test]
fn repeating_gate_off_the_circuit_is_refused() {
    let mut circuit = Circuit::new(3).unwrap();
    circuit.add_gate(Gate::H, 0).unwrap();
    let err = circuit.add_repeating_gate(Gate::X, &[0, 5, 1]).err().unwrap();
    assert_eq!(
        err.message,
        "The position, 5, is out of bounds for the circuit with 3 qubits."
    );
    let err = circuit.add_repeating_gate(Gate::X, &[1, 1, 5]).err().unwrap();
    assert_eq!(
        err.message,
        "Attempted to add more than one gate onto a single wire. The positions in [1, 1, 5] must all differ."
    );
    assert_eq!(circuit.get_gates(), &[Gate::H, Gate::Id, Gate::Id]);
}

#[test]
fn repeated_node_before_an_off_circuit_node_is_an_overlap() {
    let mut circuit = Circuit::new(3).unwrap();
    let err = circuit
        .add_gates(&[Gate::Id, Gate::Custom(example_cnot, vec![0, 0, 7], "c".to_string()), Gate::Id])
        .err()
        .unwrap();
    assert_eq!(err.message, "The c gate has overlapping control nodes.");
    assert!(circuit.get_gates().is_empty());
}
