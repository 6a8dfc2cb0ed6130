use num_complex::Complex64;
use quantr::states::{ProductState, Qubit, SuperPosition};
use quantr::Printer;

type CustomFn = fn(ProductState) -> Option<SuperPosition<Complex64>>;
type Gate = quantr::Gate<f64, CustomFn>;
type Circuit = quantr::Circuit<f64, CustomFn, Complex64>;

const ZERO: Complex64 = Complex64::new(0f64, 0f64);
const ONE: Complex64 = Complex64::new(1f64, 0f64);

fn example_cnot(prod: ProductState) -> Option<SuperPosition<Complex64>> {
    let input_register: [Qubit; 2] = [prod.qubits[0], prod.qubits[1]];
    Some(
        SuperPosition::from_amplitudes(
            match input_register {
                [Qubit::Zero, Qubit::Zero] => return None,
                [Qubit::Zero, Qubit::One] => return None,
                [Qubit::One, Qubit::Zero] => &[ZERO, ZERO, ZERO, ONE],
                [Qubit::One, Qubit::One] => &[ZERO, ZERO, ONE, ZERO],
            },
            true,
        )
        .unwrap(),
    )
}

#[test]
fn producing_string_circuit() {
    let mut quantum_circuit = Circuit::new(4).unwrap();
    quantum_circuit.add_gate(Gate::H, 3).unwrap()
        .add_repeating_gate(Gate::Y, &[0, 1]).unwrap()
        .add_gate(Gate::Toffoli(0, 3), 1).unwrap()
        .add_gate(Gate::CNot(1), 3).unwrap()
        .add_gate(Gate::CNot(2), 0).unwrap()
        .add_gate(Gate::CNot(2), 1).unwrap();

    let mut circuit_printer = Printer::new(&quantum_circuit);

    let first = circuit_printer.get_diagram();

    assert_eq!(circuit_printer.get_diagram(), "     ┏━━━┓          ┏━━━┓     \n─────┨ Y ┠──█───────┨ X ┠─────\n     ┗━━━┛  │       ┗━┯━┛     \n            │         │       \n     ┏━━━┓┏━┷━┓       │  ┏━━━┓\n─────┨ Y ┠┨ X ┠──█────┼──┨ X ┠\n     ┗━━━┛┗━┯━┛  │    │  ┗━┯━┛\n            │    │    │    │  \n            │    │    │    │  \n────────────┼────┼────█────█──\n            │    │            \n            │    │            \n┏━━━┓       │  ┏━┷━┓          \n┨ H ┠───────█──┨ X ┠──────────\n┗━━━┛          ┗━━━┛          \n                              \n\n".to_string());
    assert_eq!(first, circuit_printer.get_diagram());
}

#[test]
fn producing_string_circuit_custom() {
    let mut quantum_circuit = Circuit::new(4).unwrap();
    quantum_circuit.add_gate(Gate::H, 3).unwrap();
    quantum_circuit
        .add_gates(&[
            Gate::H,
            Gate::Custom(example_cnot, vec!(3), "Custom CNot".to_string()),
            Gate::Id,
            Gate::X,
        ]).unwrap()
        .add_repeating_gate(Gate::Y, &[0, 1]).unwrap()
        .add_gate(Gate::Toffoli(0, 3), 1).unwrap()
        .add_gate(Gate::CNot(1), 3).unwrap()
        .add_gate(Gate::CNot(2), 0).unwrap()
        .add_gate(Gate::CNot(2), 1).unwrap();

    let mut circuit_printer = Printer::new(&quantum_circuit);

    circuit_printer.get_diagram();

    assert_eq!(circuit_printer.get_diagram(), "     ┏━━━┓               ┏━━━┓          ┏━━━┓     \n─────┨ H ┠───────────────┨ Y ┠──█───────┨ X ┠─────\n     ┗━━━┛               ┗━━━┛  │       ┗━┯━┛     \n                                │         │       \n          ┏━━━━━━━━━━━━━┓┏━━━┓┏━┷━┓       │  ┏━━━┓\n──────────┨ Custom CNot ┠┨ Y ┠┨ X ┠──█────┼──┨ X ┠\n          ┗━┯━━━━━━━━━━━┛┗━━━┛┗━┯━┛  │    │  ┗━┯━┛\n            │                   │    │    │    │  \n            │                   │    │    │    │  \n────────────┼───────────────────┼────┼────█────█──\n            │                   │    │            \n            │                   │    │            \n┏━━━┓┏━━━┓  │                   │  ┏━┷━┓          \n┨ H ┠┨ X ┠──█───────────────────█──┨ X ┠──────────\n┗━━━┛┗━━━┛                         ┗━━━┛          \n                                                  \n\n".to_string());
}

#[test]
fn draws_a_single_controlled_not() {
    let mut qc = Circuit::new(2).unwrap();
    qc.add_gate(Gate::CNot(0), 1).unwrap();
    let mut printer = Printer::new(&qc);
    assert_eq!(
        printer.get_diagram(),
        "     \n──█──\n  │  \n  │  \n┏━┷━┓\n┨ X ┠\n┗━━━┛\n     \n\n"
    );
}

#[test]
fn draws_an_empty_circuit_as_empty_lines() {
    let qc = Circuit::new(2).unwrap();
    let mut printer = Printer::new(&qc);
    assert_eq!(printer.get_diagram(), "\n\n\n\n\n\n\n\n\n");
}

#[test]
fn pads_single_gates_to_the_longest_name() {
    let mut qc = Circuit::new(3).unwrap();
    qc.add_gates(&[Gate::H, Gate::Id, Gate::MX90]).unwrap();
    let mut printer = Printer::new(&qc);
    assert_eq!(
        printer.get_diagram(),
        "┏━━━┓   \n┨ H ┠───\n┗━━━┛   \n        \n        \n────────\n        \n        \n┏━━━━━━┓\n┨ X90* ┠\n┗━━━━━━┛\n        \n\n"
    );
}

#[test]
fn diagram_lines_are_equally_wide() {
    let mut quantum_circuit = Circuit::new(3).unwrap();
    quantum_circuit
        .add_gates(&[Gate::H, Gate::Custom(example_cnot, vec![2], "Long name".to_string()), Gate::Sdag])
        .unwrap()
        .add_gate(Gate::Toffoli(0, 2), 1)
        .unwrap()
        .add_repeating_gate(Gate::Rx(0.5), &[0, 2])
        .unwrap();
    let mut printer = Printer::new(&quantum_circuit);
    let diagram = printer.get_diagram();
    let lines: Vec<&str> = diagram.split('\n').collect();
    // 4 lines per wire, an empty last line, and the empty text after the final line break.
    assert_eq!(lines.len(), 4 * 3 + 2);
    let width = lines[0].chars().count();
    assert!(width > 0);
    for line in &lines[..12] {
        assert_eq!(line.chars().count(), width);
    }
    assert_eq!(lines[12], "");
    assert_eq!(lines[13], "");
}

#[test]
fn printer_checks() {
    let mut qc = Circuit::new(1).unwrap();
    for _ in 0..15 {
        qc.add_gate(Gate::X, 0).unwrap();
    }
    let printer = Printer::new(&qc);
    assert!(printer.can_draw());
    assert!(printer.is_too_wide());

    let mut narrow = Circuit::new(2).unwrap();
    for _ in 0..14 {
        narrow.add_gate(Gate::X, 0).unwrap();
    }
    assert!(!Printer::new(&narrow).is_too_wide());

    let mut unnamed = Circuit::new(2).unwrap();
    unnamed
        .add_gate(Gate::Custom(example_cnot, vec![0], String::new()), 1)
        .unwrap();
    assert!(!Printer::new(&unnamed).can_draw());
}
