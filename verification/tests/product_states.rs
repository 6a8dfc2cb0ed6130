use num_complex::Complex64;
use quantr::states::{ProductState, Qubit, SuperPosition};

const ZERO: Complex64 = Complex64::new(0f64, 0f64);
const ONE: Complex64 = Complex64::new(1f64, 0f64);

#[test]
fn converts_from_integer_to_product_state() {
    assert_eq!(
        ProductState::new_unchecked(&[Qubit::One, Qubit::One, Qubit::Zero]),
        ProductState::binary_basis(6, 3)
    )
}

#[test]
fn inverting_binary_digit() {
    let mut inverted = ProductState::new_unchecked(&[Qubit::One, Qubit::One, Qubit::Zero]);
    inverted.invert_digit(2).unwrap();
    assert_eq!(
        ProductState::new_unchecked(&[Qubit::One, Qubit::One, Qubit::One]),
        inverted
    )
}

#[test]
fn insert_qubits_in_state() {
    let mut prod = ProductState::new_unchecked(&[Qubit::One, Qubit::One, Qubit::One]);
    prod.insert_qubits(&[Qubit::Zero, Qubit::Zero], &[0, 2]);
    assert_eq!(
        ProductState::new_unchecked(&[Qubit::Zero, Qubit::One, Qubit::Zero]).qubits,
        prod.qubits
    );
}

#[test]
fn converts_from_binary_to_comp_basis() {
    assert_eq!(
        ProductState::new_unchecked(&[Qubit::One, Qubit::Zero, Qubit::One]).comp_basis(),
        5usize
    );
    assert_eq!(
        ProductState::new_unchecked(&[Qubit::One, Qubit::One, Qubit::One]).comp_basis(),
        7usize
    );
    assert_eq!(
        ProductState::new_unchecked(&[Qubit::One, Qubit::Zero]).comp_basis(),
        2usize
    );
    assert_eq!(
        ProductState::new_unchecked(&[Qubit::One, Qubit::Zero, Qubit::One, Qubit::One])
            .comp_basis(),
        11usize
    );
}

#[test]
fn converts_productstate_to_superpos() {
    let from_state = SuperPosition::from_basis_state(
        &ProductState::new_unchecked(&[Qubit::One, Qubit::Zero]),
        ZERO,
        ONE,
    );
    let mut set = SuperPosition::zero_state(2, ZERO, ONE).unwrap();
    set.replace_amplitudes(&[ZERO, ZERO, ONE, ZERO], true).unwrap();
    assert_eq!(&from_state, &set);
    assert_eq!(from_state.get_amplitudes(), &[ZERO, ZERO, ONE, ZERO]);
}

#[test]
fn new_refuses_an_empty_slice() {
    let err = ProductState::new(&[]).unwrap_err();
    assert_eq!(
        err.message,
        "The slice of qubits is empty, it needs to at least have one element."
    );
    let ok = ProductState::new(&[Qubit::Zero, Qubit::One]).unwrap();
    assert_eq!(ok.get_qubits(), &[Qubit::Zero, Qubit::One]);
}

#[test]
fn get_reads_inside_and_none_outside() {
    let prod = ProductState::new_unchecked(&[Qubit::Zero, Qubit::One]);
    assert_eq!(prod.get(0), Some(&Qubit::Zero));
    assert_eq!(prod.get(1), Some(&Qubit::One));
    assert_eq!(prod.get(2), None);
    assert_eq!(prod.get_unchecked(1), Qubit::One);
    assert_eq!(prod.num_qubits(), 2);
}

#[test]
fn get_mut_qubits_writes_through() {
    let mut prod = ProductState::new_unchecked(&[Qubit::Zero, Qubit::Zero]);
    prod.get_mut_qubits()[1] = Qubit::One;
    assert_eq!(prod.to_string(), "01");
}

#[test]
fn inverting_digit_out_of_range_is_refused() {
    let mut prod = ProductState::new_unchecked(&[Qubit::One, Qubit::Zero]);
    let err = prod.invert_digit(2).unwrap_err();
    assert_eq!(
        err.message,
        "The position of the binary digit, 2, is out of bounds. The product dimension is 2, and so the position must be strictly less."
    );
    assert_eq!(prod.to_string(), "10");
}

#[test]
fn inverting_twice_restores_the_state() {
    let original = ProductState::new_unchecked(&[Qubit::One, Qubit::Zero, Qubit::One]);
    let mut prod = original.clone();
    prod.invert_digit(1).unwrap();
    assert_eq!(prod.to_string(), "111");
    prod.invert_digit(1).unwrap();
    assert_eq!(prod, original);
}

#[test]
fn binary_basis_and_comp_basis_undo_each_other() {
    for index in 0..16usize {
        assert_eq!(ProductState::binary_basis(index, 4).comp_basis(), index);
    }
    let prod = ProductState::new_unchecked(&[Qubit::Zero, Qubit::One, Qubit::One, Qubit::Zero]);
    assert_eq!(ProductState::binary_basis(prod.comp_basis(), 4), prod);
    assert_eq!(ProductState::binary_basis(13, 2).to_string(), "01");
}

#[test]
fn kronecker_products_append_qubits() {
    let pair = Qubit::One.kronecker_prod(Qubit::Zero);
    assert_eq!(pair.to_string(), "10");
    let triple = pair.kronecker_prod(Qubit::One);
    assert_eq!(triple.to_string(), "101");
    assert_eq!(Qubit::One.into_state().get_qubits(), &[Qubit::One]);
}

#[test]
fn label_of_a_state() {
    let prod = ProductState::new(&[Qubit::Zero, Qubit::One]).unwrap();
    assert_eq!(String::from("01"), prod.to_string());
}

#[test]
fn insert_then_read_back() {
    let mut prod = ProductState::new_unchecked(&[Qubit::Zero; 5]);
    prod.insert_qubits(&[Qubit::One, Qubit::Zero, Qubit::One], &[4, 1, 0]);
    assert_eq!(prod.to_string(), "10001");
    assert_eq!(
        prod.restrict(&[4, 1, 0]).get_qubits(),
        &[Qubit::One, Qubit::Zero, Qubit::One]
    );
    let before = prod.clone();
    let read = prod.restrict(&[2, 3]);
    prod.insert_qubits(read.get_qubits(), &[2, 3]);
    assert_eq!(prod, before);
}

#[test]
fn iterates_the_qubits_and_starts_over() {
    let prod = ProductState::new_unchecked(&[Qubit::One, Qubit::Zero]);
    let mut iter = prod.into_iter();
    assert_eq!(iter.next(), Some(Qubit::One));
    assert_eq!(iter.next(), Some(Qubit::Zero));
    assert_eq!(iter.next(), None);
    assert_eq!(iter.next(), Some(Qubit::One));
}
