//! Quantum circuits: columns of gates on a number of wires.

pub mod diagram_shape;
pub mod layout;
pub mod printer;

use std::collections::HashMap;
use vstd::prelude::*;

use crate::error::QuantrError;
use crate::gate::{control_nodes, gate_name, is_single, Gate, GateView};
use crate::states::SuperPosition;
use crate::text::{decimal, push_decimal};
use layout::{
    column_valid, gates_view, has_non_ascii_name, isolated_column, isolated_columns,
    lemma_count_monotone, lemma_count_step, lemma_gates_view_add, lemma_gates_view_push,
    lemma_gates_view_update, lemma_layout_append, law_pushed_layout_well_formed,
    layout_well_formed, name_inspected, nodes_valid, non_identity_count, pushed_layout,
    refused_name, stripped,
};

verus! {

/// The message of the error for a control node that is not on the circuit.
pub open spec fn out_of_range_message(node: usize, n: nat) -> Seq<char> {
    "The control node at position "@ + decimal(node as nat) + ", is greater than the umnber of qubits "@
        + decimal(n) + "."@
}

/// The message of the error for a gate whose control nodes repeat.
pub open spec fn overlapping_message<A, F>(g: GateView<A, F>) -> Seq<char> {
    "The "@ + gate_name(g) + " gate has overlapping control nodes."@
}

/// The message of the error for a gate with a control node on its own wire.
pub open spec fn own_wire_message<A, F>(g: GateView<A, F>, pos: nat) -> Seq<char> {
    "The "@ + gate_name(g) + " gate has a control node that equals its own position "@ + decimal(
        pos,
    ) + "."@
}

/// Whether position `k` of `s` holds the first value that is not below `n` or repeats an
/// earlier value: where a scan for repeated wires among `n` stops.
pub open spec fn is_first_invalid(s: Seq<usize>, n: nat, k: int) -> bool {
    &&& 0 <= k < s.len()
    &&& (s[k] >= n || exists|j: int| 0 <= j < k && s[j] == s[k])
    &&& forall|i: int| 0 <= i < k ==> s[i] < n
    &&& forall|i: int, j: int| 0 <= j < i < k ==> s[j] != s[i]
}

/// Whether `message` reports what is wrong with the control nodes of a gate `g` at position
/// `pos` of a column of `n` wires. The nodes are scanned in order for one that repeats an
/// earlier node or is off the circuit, and the first such node is reported as a repeat or as
/// off the circuit; if there is none, a node on its own wire is reported.
pub open spec fn reports_invalid_nodes<A, F>(g: GateView<A, F>, pos: nat, n: nat, message: Seq<char>) -> bool {
    let nodes = control_nodes(g).unwrap();
    if exists|k: int| is_first_invalid(nodes, n, k) {
        exists|k: int|
            is_first_invalid(nodes, n, k) && if #[trigger] nodes[k] >= n {
                message == out_of_range_message(nodes[k], n)
            } else {
                message == overlapping_message(g)
            }
    } else {
        message == own_wire_message(g, pos)
    }
}

/// The message of the error for a custom gate whose name is not ASCII.
pub open spec fn non_ascii_message(name: Seq<char>) -> Seq<char> {
    "The custom function name, "@ + name
        + ", does not only use ASCII chars. This could lead to problems in printing the circuit diagram. This warning will be promoted to an Error in the next major release."@
}

/// Whether a column of gates is accepted onto a circuit of `n` wires: its control nodes are
/// valid and no inspected custom name is refused.
pub open spec fn column_accepted<A, F>(col: Seq<GateView<A, F>>, n: nat) -> bool {
    column_valid(col, n) && !refused_name(col)
}

/// Whether `message` reports why a column of `n` wires was refused: the first gate with invalid
/// control nodes, or else the first inspected custom gate whose name is not ASCII.
pub open spec fn reports_refused_column<A, F>(col: Seq<GateView<A, F>>, n: nat, message: Seq<char>) -> bool {
    if !column_valid(col, n) {
        exists|p: int|
            0 <= p < col.len() && (forall|q: int| 0 <= q < p ==> nodes_valid(col[q], q, n)) && !nodes_valid(
                #[trigger] col[p],
                p,
                n,
            ) && reports_invalid_nodes(col[p], p as nat, n, message)
    } else {
        exists|k: int|
            0 <= k < col.len() && name_inspected(col, k) && #[trigger] has_non_ascii_name(col[k])
                && (forall|j: int| 0 <= j < k ==> !has_non_ascii_name(col[j])) && message == non_ascii_message(
                gate_name(col[k]),
            )
    }
}

/// The message of the error for a column whose number of gates is not the number of wires.
pub open spec fn gate_count_message(count: nat, n: nat) -> Seq<char> {
    "The number of gates, "@ + decimal(count) + ", does not match the number of wires, "@ + decimal(n)
        + ". All wires must have gates added."@
}

/// The message of the error for a gate placed off the circuit.
pub open spec fn position_message(position: nat, n: nat) -> Seq<char> {
    "The position, "@ + decimal(position) + ", is out of bounds for the circuit with "@ + decimal(n)
        + " qubits."@
}

/// The items of a list of positions, separated by commas.
pub open spec fn list_items(s: Seq<usize>) -> Seq<char>
    decreases s.len(),
{
    if s.len() == 0 {
        Seq::empty()
    } else if s.len() == 1 {
        decimal(s[0] as nat)
    } else {
        list_items(s.drop_last()) + ", "@ + decimal(s.last() as nat)
    }
}

/// The message of the error for a gate repeated on a wire.
pub open spec fn repeated_positions_message(positions: Seq<usize>) -> Seq<char> {
    "Attempted to add more than one gate onto a single wire. The positions in ["@ + list_items(positions)
        + "] must all differ."@
}

/// The column that places `gate` on each of `positions` and the identity elsewhere.
pub open spec fn repeated_column<A, F>(n: nat, gate: GateView<A, F>, positions: Seq<usize>) -> Seq<GateView<A, F>> {
    Seq::new(n, |j: int| if positions.contains(j as usize) { gate } else { GateView::Id })
}

/// The column that places each gate of a map from wires to gates on its wire, and the identity
/// on the wires that the map leaves bare.
pub open spec fn positioned_column<A, F>(n: nat, gates: Map<usize, Gate<A, F>>) -> Seq<GateView<A, F>> {
    Seq::new(n, |j: int| if gates.contains_key(j as usize) { gates[j as usize]@ } else { GateView::Id })
}

/// A quantum circuit where gates can be appended column by column.
///
/// The type parameters are those of its gates ([Gate]) and the amplitude type of the register
/// that it is simulated from.
pub struct Circuit<A, F, C> {
    circuit_gates: Vec<Gate<A, F>>,
    num_qubits: usize,
    register: Option<SuperPosition<C>>,
    config_progress: bool,
}

impl<A, F, C> Circuit<A, F, C> {
    /// The gates of the circuit, column after column, one gate per wire in each column.
    pub closed spec fn layout(&self) -> Seq<GateView<A, F>> {
        gates_view(self.circuit_gates@)
    }

    /// The number of wires (qubits) of the circuit.
    pub closed spec fn wires(&self) -> nat {
        self.num_qubits as nat
    }

    /// The register that the circuit is simulated from, if one was attached.
    pub closed spec fn register(&self) -> Option<SuperPosition<C>> {
        self.register
    }

    /// The number of wires is a machine word.
    pub proof fn lemma_wires_fit(&self)
        ensures
            self.wires() <= usize::MAX,
    {
    }

    /// Whether the simulation progress is printed.
    pub closed spec fn prints_progress(&self) -> bool {
        self.config_progress
    }

    /// The circuit has at least one wire, its gates form well-formed columns, and an attached
    /// register has one qubit per wire.
    pub open spec fn wf(&self) -> bool {
        &&& self.wires() > 0
        &&& layout_well_formed(self.layout(), self.wires())
        &&& self.register() matches Some(r) ==> r.dim() == self.wires()
    }

    /// Initialises a new circuit with `num_qubits` wires; an error is returned if there is
    /// none.
    pub fn new(num_qubits: usize) -> (res: Result<Circuit<A, F, C>, QuantrError>)
        ensures
            match res {
                Ok(c) => {
                    &&& num_qubits > 0
                    &&& c.wf()
                    &&& c.wires() == num_qubits
                    &&& c.layout() == Seq::<GateView<A, F>>::empty()
                    &&& c.register() is None
                    &&& !c.prints_progress()
                },
                Err(e) => num_qubits == 0 && e.message@
                    == "The initialised circuit must have at least one wire."@,
            },
    {
        if num_qubits == 0 {
            return Err(
                QuantrError {
                    message: String::from_str("The initialised circuit must have at least one wire."),
                },
            );
        }
        let circuit_gates: Vec<Gate<A, F>> = Vec::new();
        let c = Circuit { circuit_gates, num_qubits, register: None, config_progress: false };
        proof {
            assert(c.layout() =~= Seq::<GateView<A, F>>::empty());
        }
        Ok(c)
    }

    /// Returns the number of qubits in the circuit.
    pub fn get_num_qubits(&self) -> (res: usize)
        ensures
            res == self.wires(),
    {
        self.num_qubits
    }

    /// Sets whether the simulation of the circuit prints its progress.
    pub fn set_print_progress(&mut self, progress: bool)
        ensures
            final(self).prints_progress() == progress,
            final(self).layout() == old(self).layout(),
            final(self).wires() == old(self).wires(),
            final(self).register() == old(self).register(),
    {
        self.config_progress = progress;
    }

    /// Returns whether the simulation of the circuit prints its progress.
    pub fn get_print_progress(&self) -> (res: bool)
        ensures
            res == self.prints_progress(),
    {
        self.config_progress
    }

    /// Returns the gates that have been added to the circuit: a flattened sequence of columns,
    /// each with one gate per wire, where bare wires hold the identity.
    pub fn get_gates(&self) -> (res: &[Gate<A, F>])
        ensures
            gates_view(res@) == self.layout(),
    {
        self.circuit_gates.as_slice()
    }

    /// Returns the register that the circuit will be simulated from, if one was attached with
    /// [Circuit::change_register].
    pub fn get_register(&self) -> (res: Option<&SuperPosition<C>>)
        ensures
            match self.register() {
                Some(r) => res == Some(&r),
                None => res is None,
            },
    {
        match &self.register {
            Some(r) => Some(r),
            None => None,
        }
    }

    /// Scans `array` for a value that occurs twice, stopping at the first value that repeats
    /// an earlier one or is not a wire of a circuit of `num_qubits` wires, and returns its
    /// position.
    fn first_invalid_value(num_qubits: usize, array: &[usize]) -> (res: Option<usize>)
        ensures
            match res {
                Some(k) => is_first_invalid(array@, num_qubits as nat, k as int),
                None => {
                    &&& forall|i: int| 0 <= i < array@.len() ==> array@[i] < num_qubits
                    &&& array@.no_duplicates()
                },
            },
    {
        let mut counter: Vec<bool> = Vec::new();
        let mut v: usize = 0;
        while v < num_qubits
            invariant
                v <= num_qubits,
                counter@.len() == v,
                forall|w: int| 0 <= w < v ==> !counter@[w],
            decreases num_qubits - v,
        {
            counter.push(false);
            v = v + 1;
        }
        let mut j: usize = 0;
        while j < array.len()
            invariant
                j <= array@.len(),
                counter@.len() == num_qubits,
                forall|i: int| 0 <= i < j ==> array@[i] < num_qubits,
                forall|w: int| 0 <= w < num_qubits ==> (counter@[w] <==> exists|i: int| 0 <= i < j && array@[i] == w),
                forall|a: int, b: int| 0 <= b < a < j ==> array@[b] != array@[a],
            decreases array@.len() - j,
        {
            let value = array[j];
            if value >= num_qubits {
                return Some(j);
            }
            if counter[value] {
                proof {
                    let i = choose|i: int| 0 <= i < j && array@[i] == value;
                    assert(array@[i] == array@[j as int]);
                }
                return Some(j);
            }
            counter.set(value, true);
            proof {
                assert forall|w: int| 0 <= w < num_qubits implies (counter@[w] <==> exists|i: int|
                    0 <= i < j + 1 && array@[i] == w) by {
                    if w == value {
                        assert(array@[j as int] == w);
                    }
                }
            }
            j = j + 1;
        }
        proof {
            assert forall|a: int, b: int| 0 <= a < array@.len() && 0 <= b < array@.len() && a != b implies array@[a]
                != array@[b] by {
                if b < a {
                } else {
                }
            }
        }
        None
    }

    /// Checks that the control nodes of every gate of a column of `circuit_size` wires are on
    /// the circuit, distinct and apart from the wire that carries it.
    #[verifier::loop_isolation(false)]
    fn has_overlapping_controls_and_target(gates: &[Gate<A, F>], circuit_size: usize) -> (res: Result<(), QuantrError>)
        ensures
            match res {
                Ok(()) => column_valid(gates_view(gates@), circuit_size as nat),
                Err(e) => exists|p: int|
                    0 <= p < gates@.len() && (forall|q: int| 0 <= q < p ==> nodes_valid(gates_view(gates@)[q], q, circuit_size as nat))
                        && !nodes_valid(#[trigger] gates_view(gates@)[p], p, circuit_size as nat)
                        && reports_invalid_nodes(gates_view(gates@)[p], p as nat, circuit_size as nat, e.message@),
            },
    {
        let ghost col = gates_view(gates@);
        let mut pos: usize = 0;
        while pos < gates.len()
            invariant
                pos <= gates@.len(),
                col == gates_view(gates@),
                forall|q: int| 0 <= q < pos ==> nodes_valid(col[q], q, circuit_size as nat),
            decreases gates@.len() - pos,
        {
            let gate = &gates[pos];
            proof {
                assert(col[pos as int] == gates@[pos as int]@);
            }
            match gate.get_nodes() {
                None => {},
                Some(nodes) => {
                    match Self::first_invalid_value(circuit_size, nodes.as_slice()) {
                        Some(k) => {
                            if nodes[k] >= circuit_size {
                                let mut message = String::from_str("The control node at position ");
                                push_decimal(&mut message, nodes[k]);
                                message.append(", is greater than the umnber of qubits ");
                                push_decimal(&mut message, circuit_size);
                                message.append(".");
                                return Err(QuantrError { message });
                            }
                            let mut message = String::from_str("The ");
                            message.append(gate.get_name().as_str());
                            message.append(" gate has overlapping control nodes.");
                            return Err(QuantrError { message });
                        },
                        None => {},
                    }
                    let mut i: usize = 0;
                    while i < nodes.len()
                        invariant
                            i <= nodes@.len(),
                            forall|j: int| 0 <= j < i ==> nodes@[j] != pos,
                        decreases nodes@.len() - i,
                    {
                        if nodes[i] == pos {
                            let mut message = String::from_str("The ");
                            message.append(gate.get_name().as_str());
                            message.append(" gate has a control node that equals its own position ");
                            push_decimal(&mut message, pos);
                            message.append(".");
                            return Err(QuantrError { message });
                        }
                        i = i + 1;
                    }
                },
            }
            pos = pos + 1;
        }
        Ok(())
    }

    /// A column of `n` wires with `gate` on wire `k` and the identity elsewhere.
    fn isolated_gate_column(n: usize, k: usize, gate: Gate<A, F>) -> (res: Vec<Gate<A, F>>)
        requires
            k < n,
        ensures
            gates_view(res@) == isolated_column(n as nat, k as int, gate@),
    {
        let ghost g = gate@;
        let mut res: Vec<Gate<A, F>> = Vec::new();
        let mut j: usize = 0;
        while j < k
            invariant
                j <= k < n,
                gates_view(res@) == isolated_column(n as nat, k as int, g).take(j as int),
            decreases k - j,
        {
            let ghost before = res@;
            res.push(Gate::Id);
            proof {
                lemma_gates_view_push(before, Gate::Id);
                assert(gates_view(res@) =~= isolated_column(n as nat, k as int, g).take(j + 1));
            }
            j = j + 1;
        }
        let ghost before = res@;
        res.push(gate);
        proof {
            lemma_gates_view_push(before, gate);
            assert(gates_view(res@) =~= isolated_column(n as nat, k as int, g).take(k + 1));
        }
        let mut j: usize = k + 1;
        while j < n
            invariant
                k < j <= n,
                gates_view(res@) == isolated_column(n as nat, k as int, g).take(j as int),
            decreases n - j,
        {
            let ghost before = res@;
            res.push(Gate::Id);
            proof {
                lemma_gates_view_push(before, Gate::Id);
                assert(gates_view(res@) =~= isolated_column(n as nat, k as int, g).take(j + 1));
            }
            j = j + 1;
        }
        proof {
            assert(gates_view(res@) =~= isolated_column(n as nat, k as int, g));
        }
        res
    }

    /// Moves the gates with control nodes of a column into columns of their own, unless the
    /// column holds at most one gate that is not the identity.
    ///
    /// An error is returned, and the column left as it is, if a custom gate whose name is
    /// inspected (up to the second gate that is not the identity) has a name that is not ASCII.
    fn push_multi_gates(gates: &mut Vec<Gate<A, F>>) -> (res: Result<(), QuantrError>)
        ensures
            match res {
                Ok(()) => {
                    &&& !refused_name(gates_view(old(gates)@))
                    &&& gates_view(final(gates)@) == pushed_layout(gates_view(old(gates)@))
                },
                Err(e) => {
                    &&& refused_name(gates_view(old(gates)@))
                    &&& *final(gates) == *old(gates)
                    &&& exists|k: int|
                        0 <= k < old(gates)@.len() && name_inspected(gates_view(old(gates)@), k)
                            && #[trigger] has_non_ascii_name(gates_view(old(gates)@)[k])
                            && (forall|j: int| 0 <= j < k ==> !has_non_ascii_name(gates_view(old(gates)@)[j]))
                            && e.message@ == non_ascii_message(gate_name(gates_view(old(gates)@)[k]))
                },
            },
    {
        let ghost col = gates_view(gates@);
        let mut found_multi = false;
        let mut found_second = false;
        let mut k: usize = 0;
        while k < gates.len() && !found_second
            invariant
                k <= gates@.len(),
                col == gates_view(gates@),
                *gates == *old(gates),
                forall|j: int| 0 <= j < k ==> !has_non_ascii_name(#[trigger] col[j]),
                found_multi == (non_identity_count(col.take(k as int)) >= 1),
                found_second == (non_identity_count(col.take(k as int)) >= 2),
                non_identity_count(col.take(k as int)) <= 2,
            decreases gates@.len() - k,
        {
            proof {
                lemma_count_step(col, k as int);
            }
            match &gates[k] {
                Gate::Custom(_, _, name) => {
                    if !name.is_ascii() {
                        let mut message = String::from_str("The custom function name, ");
                        message.append(name.as_str());
                        message.append(
                            ", does not only use ASCII chars. This could lead to problems in printing the circuit diagram. This warning will be promoted to an Error in the next major release.",
                        );
                        proof {
                            assert(has_non_ascii_name(col[k as int]));
                            assert(name_inspected(col, k as int));
                        }
                        return Err(QuantrError { message });
                    }
                },
                _ => {},
            }
            if !gates[k].is_identity() {
                if found_multi {
                    found_second = true;
                } else {
                    found_multi = true;
                }
            }
            k = k + 1;
        }
        proof {
            assert forall|j: int| 0 <= j < col.len() && name_inspected(col, j) implies !#[trigger] has_non_ascii_name(col[j]) by {
                if j >= k {
                    lemma_count_monotone(col, k as int, j);
                }
            }
        }
        if !found_second {
            proof {
                assert(col.take(col.len() as int) =~= col);
            }
            return Ok(());
        }
        proof {
            lemma_count_monotone(col, k as int, col.len() as int);
            assert(col.take(col.len() as int) =~= col);
        }
        let n = gates.len();
        let mut extended: Vec<Gate<A, F>> = Vec::new();
        let mut k: usize = 0;
        while k < n
            invariant
                k <= n,
                n == col.len(),
                gates@.len() == n,
                forall|j: int| 0 <= j < n ==> #[trigger] gates_view(gates@)[j] == if j < k { stripped(col)[j] } else { col[j] },
                gates_view(extended@) == isolated_columns(col, k as nat),
            decreases n - k,
        {
            proof {
                assert(gates_view(gates@)[k as int] == col[k as int]);
                assert(gates_view(gates@)[k as int] == gates@[k as int]@);
            }
            if !gates[k].is_single_gate() {
                let mut gate = Gate::Id;
                let ghost old_gates = gates@;
                gates.set_and_swap(k, &mut gate);
                proof {
                    lemma_gates_view_update(old_gates, k as int, Gate::Id);
                    assert(gate@ == col[k as int]);
                }
                let mut column = Self::isolated_gate_column(n, k, gate);
                let ghost before = extended@;
                let ghost added = column@;
                extended.append(&mut column);
                proof {
                    lemma_gates_view_add(before, added);
                }
            } else {
                proof {
                    assert(isolated_columns(col, (k + 1) as nat) =~= isolated_columns(col, k as nat));
                }
            }
            k = k + 1;
        }
        let ghost first = gates@;
        let ghost rest = extended@;
        gates.append(&mut extended);
        proof {
            lemma_gates_view_add(first, rest);
            assert(gates_view(first) =~= stripped(col));
            assert(gates_view(gates@) =~= stripped(col) + isolated_columns(col, n as nat));
        }
        Ok(())
    }
}


impl<A, F, C> Circuit<A, F, C> {
    /// Appends a column of one gate per wire: checks its control nodes, moves its gates with
    /// control nodes to columns of their own and adds the resulting columns.
    fn append_column(&mut self, column: Vec<Gate<A, F>>) -> (res: Result<(), QuantrError>)
        requires
            old(self).wf(),
            column@.len() == old(self).wires(),
        ensures
            match res {
                Ok(()) => {
                    &&& column_accepted(gates_view(column@), old(self).wires())
                    &&& final(self).layout() == old(self).layout() + pushed_layout(gates_view(column@))
                    &&& final(self).wires() == old(self).wires()
                    &&& final(self).register() == old(self).register()
                    &&& final(self).prints_progress() == old(self).prints_progress()
                    &&& final(self).wf()
                },
                Err(e) => {
                    &&& !column_accepted(gates_view(column@), old(self).wires())
                    &&& reports_refused_column(gates_view(column@), old(self).wires(), e.message@)
                    &&& *final(self) == *old(self)
                },
            },
    {
        let ghost col = gates_view(column@);
        match Self::has_overlapping_controls_and_target(column.as_slice(), self.num_qubits) {
            Ok(()) => {},
            Err(e) => {
                return Err(e);
            },
        }
        let mut column = column;
        match Self::push_multi_gates(&mut column) {
            Ok(()) => {},
            Err(e) => {
                return Err(e);
            },
        }
        let ghost before = self.circuit_gates@;
        let ghost added = column@;
        self.circuit_gates.append(&mut column);
        proof {
            lemma_gates_view_add(before, added);
            law_pushed_layout_well_formed(col, self.num_qubits as nat);
            lemma_layout_append(gates_view(before), pushed_layout(col), self.num_qubits as nat);
        }
        Ok(())
    }

    /// Adds a column of gates given by their positions; wires without a gate get the identity.
    ///
    /// An error is returned, and the circuit left as it is, if a position is not on the circuit
    /// or the column is refused (see [Circuit::add_gates]).
    pub fn add_gates_with_positions(&mut self, gates_with_positions: HashMap<usize, Gate<A, F>>) -> (res: Result<&mut Circuit<A, F, C>, QuantrError>)
        requires
            old(self).wf(),
        ensures
            match res {
                Ok(r) => {
                    &&& forall|k: usize| gates_with_positions@.contains_key(k) ==> k < old(self).wires()
                    &&& column_accepted(positioned_column(old(self).wires(), gates_with_positions@), old(self).wires())
                    &&& r.layout() == old(self).layout() + pushed_layout(positioned_column(old(self).wires(), gates_with_positions@))
                    &&& r.wires() == old(self).wires()
                    &&& r.register() == old(self).register()
                    &&& r.prints_progress() == old(self).prints_progress()
                    &&& r.wf()
                    &&& *final(self) == *final(r)
                },
                Err(e) => {
                    &&& *final(self) == *old(self)
                    &&& if exists|k: usize| gates_with_positions@.contains_key(k) && k >= old(self).wires() {
                        exists|k: usize| #[trigger] gates_with_positions@.contains_key(k) && k >= old(self).wires()
                            && e.message@ == position_message(k as nat, old(self).wires())
                    } else {
                        &&& !column_accepted(positioned_column(old(self).wires(), gates_with_positions@), old(self).wires())
                        &&& reports_refused_column(positioned_column(old(self).wires(), gates_with_positions@), old(self).wires(), e.message@)
                    }
                },
            },
    {
        broadcast use vstd::std_specs::hash::group_hash_axioms;
        let ghost original = gates_with_positions@;
        let n = self.num_qubits;
        let mut remaining = gates_with_positions;
        let mut column: Vec<Gate<A, F>> = Vec::new();
        let mut row: usize = 0;
        while row < n
            invariant
                row <= n,
                n == self.wires(),
                remaining@ == original.remove_keys(Set::new(|k: usize| k < row)),
                gates_view(column@) == positioned_column(n as nat, original).take(row as int),
            decreases n - row,
        {
            let ghost before = column@;
            let ghost before_map = remaining@;
            match remaining.remove(&row) {
                Some(gate) => {
                    column.push(gate);
                },
                None => {
                    column.push(Gate::Id);
                },
            }
            proof {
                lemma_gates_view_push(before, column@.last());
                assert(remaining@ =~= original.remove_keys(Set::new(|k: usize| k < row + 1)));
                assert(gates_view(column@) =~= positioned_column(n as nat, original).take(row + 1));
            }
            row = row + 1;
        }
        proof {
            assert(gates_view(column@) =~= positioned_column(n as nat, original));
        }
        if remaining.len() > 0 {
            let mut found: Option<usize> = None;
            for key in keys: remaining.keys()
                invariant_except_break
                    found is None,
                    keys.index() == 0,
                ensures
                    found matches Some(k) ==> remaining@.contains_key(k),
                    found is None ==> keys.seq().len() == 0,
            {
                proof {
                    assert(remaining@.dom().contains(*key));
                }
                found = Some(*key);
                break;
            }
            match found {
                Some(k) => {
                    let mut message = String::from_str("The position, ");
                    push_decimal(&mut message, k);
                    message.append(", is out of bounds for the circuit with ");
                    push_decimal(&mut message, n);
                    message.append(" qubits.");
                    proof {
                        assert(original.contains_key(k));
                    }
                    return Err(QuantrError { message });
                },
                None => {
                    proof {
                        assert(remaining@.dom().len() == 0);
                    }
                },
            }
        }
        proof {
            assert forall|k: usize| original.contains_key(k) implies k < n by {
                if k >= n {
                    assert(remaining@.contains_key(k));
                }
            }
        }
        match self.append_column(column) {
            Ok(()) => Ok(self),
            Err(e) => Err(e),
        }
    }

    /// Adds a single gate on the wire `position`, with the identity on the other wires.
    ///
    /// An error is returned, and the circuit left as it is, if the position is not on the
    /// circuit or the column is refused (see [Circuit::add_gates]).
    pub fn add_gate(&mut self, gate: Gate<A, F>, position: usize) -> (res: Result<&mut Circuit<A, F, C>, QuantrError>)
        requires
            old(self).wf(),
        ensures
            match res {
                Ok(r) => {
                    &&& position < old(self).wires()
                    &&& column_accepted(isolated_column(old(self).wires(), position as int, gate@), old(self).wires())
                    &&& r.layout() == old(self).layout() + pushed_layout(isolated_column(old(self).wires(), position as int, gate@))
                    &&& r.wires() == old(self).wires()
                    &&& r.register() == old(self).register()
                    &&& r.prints_progress() == old(self).prints_progress()
                    &&& r.wf()
                    &&& *final(self) == *final(r)
                },
                Err(e) => {
                    &&& *final(self) == *old(self)
                    &&& if position >= old(self).wires() {
                        e.message@ == position_message(position as nat, old(self).wires())
                    } else {
                        &&& !column_accepted(isolated_column(old(self).wires(), position as int, gate@), old(self).wires())
                        &&& reports_refused_column(isolated_column(old(self).wires(), position as int, gate@), old(self).wires(), e.message@)
                    }
                },
            },
    {
        broadcast use vstd::std_specs::hash::group_hash_axioms;
        let ghost g = gate@;
        let mut gates_with_positions: HashMap<usize, Gate<A, F>> = HashMap::new();
        gates_with_positions.insert(position, gate);
        proof {
            assert(gates_with_positions@.dom() =~= set![position]);
            assert(positioned_column(old(self).wires(), gates_with_positions@) =~= isolated_column(old(self).wires(), position as int, g));
            assert(gates_with_positions@.contains_key(position));
        }
        Self::add_gates_with_positions(self, gates_with_positions)
    }
}


impl<A: Copy, F: Copy, C> Circuit<A, F, C> {
    /// Adds a column of gates, one for each wire.
    ///
    /// Gates with control nodes are moved into columns of their own when the column holds
    /// more than one gate that is not the identity. An error is returned, and the circuit left
    /// as it is, if the number of gates is not the number of wires, if a gate has control nodes
    /// that repeat, are off the circuit or on its own wire, or if the name of an inspected
    /// custom gate is not ASCII.
    pub fn add_gates(&mut self, gates: &[Gate<A, F>]) -> (res: Result<&mut Circuit<A, F, C>, QuantrError>)
        requires
            old(self).wf(),
        ensures
            match res {
                Ok(r) => {
                    &&& gates@.len() == old(self).wires()
                    &&& column_accepted(gates_view(gates@), old(self).wires())
                    &&& r.layout() == old(self).layout() + pushed_layout(gates_view(gates@))
                    &&& r.wires() == old(self).wires()
                    &&& r.register() == old(self).register()
                    &&& r.prints_progress() == old(self).prints_progress()
                    &&& r.wf()
                    &&& *final(self) == *final(r)
                },
                Err(e) => {
                    &&& *final(self) == *old(self)
                    &&& if gates@.len() != old(self).wires() {
                        e.message@ == gate_count_message(gates@.len(), old(self).wires())
                    } else {
                        &&& !column_accepted(gates_view(gates@), old(self).wires())
                        &&& reports_refused_column(gates_view(gates@), old(self).wires(), e.message@)
                    }
                },
            },
    {
        if gates.len() != self.num_qubits {
            let mut message = String::from_str("The number of gates, ");
            push_decimal(&mut message, gates.len());
            message.append(", does not match the number of wires, ");
            push_decimal(&mut message, self.num_qubits);
            message.append(". All wires must have gates added.");
            return Err(QuantrError { message });
        }
        let mut column: Vec<Gate<A, F>> = Vec::new();
        let mut i: usize = 0;
        while i < gates.len()
            invariant
                i <= gates@.len(),
                gates_view(column@) == gates_view(gates@).take(i as int),
            decreases gates@.len() - i,
        {
            let ghost before = column@;
            let gate = gates[i].replicate();
            column.push(gate);
            proof {
                lemma_gates_view_push(before, gate);
                assert(gates_view(column@) =~= gates_view(gates@).take(i + 1));
            }
            i = i + 1;
        }
        proof {
            assert(gates_view(column@) =~= gates_view(gates@));
        }
        match self.append_column(column) {
            Ok(()) => Ok(self),
            Err(e) => Err(e),
        }
    }

    /// Places a single gate on each of the given wires, with the identity on the others, as one
    /// column.
    ///
    /// An error is returned, and the circuit left as it is, if a position is not on the circuit
    /// or repeats an earlier one (whichever comes first in the positions), or if the column is
    /// refused (see [Circuit::add_gates]).
    pub fn add_repeating_gate(&mut self, gate: Gate<A, F>, positions: &[usize]) -> (res: Result<&mut Circuit<A, F, C>, QuantrError>)
        requires
            old(self).wf(),
        ensures
            match res {
                Ok(r) => {
                    &&& forall|i: int| 0 <= i < positions@.len() ==> positions@[i] < old(self).wires()
                    &&& positions@.no_duplicates()
                    &&& column_accepted(repeated_column(old(self).wires(), gate@, positions@), old(self).wires())
                    &&& r.layout() == old(self).layout() + pushed_layout(repeated_column(old(self).wires(), gate@, positions@))
                    &&& r.wires() == old(self).wires()
                    &&& r.register() == old(self).register()
                    &&& r.prints_progress() == old(self).prints_progress()
                    &&& r.wf()
                    &&& *final(self) == *final(r)
                },
                Err(e) => {
                    &&& *final(self) == *old(self)
                    &&& if exists|k: int| is_first_invalid(positions@, old(self).wires(), k) {
                        exists|k: int|
                            is_first_invalid(positions@, old(self).wires(), k) && if #[trigger] positions@[k]
                                >= old(self).wires() {
                                e.message@ == position_message(positions@[k] as nat, old(self).wires())
                            } else {
                                e.message@ == repeated_positions_message(positions@)
                            }
                    } else {
                        &&& !column_accepted(repeated_column(old(self).wires(), gate@, positions@), old(self).wires())
                        &&& reports_refused_column(repeated_column(old(self).wires(), gate@, positions@), old(self).wires(), e.message@)
                    }
                },
            },
    {
        let first_invalid = Self::first_invalid_value(self.num_qubits, positions);
        if let Some(k) = first_invalid {
            if positions[k] >= self.num_qubits {
                let mut message = String::from_str("The position, ");
                push_decimal(&mut message, positions[k]);
                message.append(", is out of bounds for the circuit with ");
                push_decimal(&mut message, self.num_qubits);
                message.append(" qubits.");
                return Err(QuantrError { message });
            }
            let mut message = String::from_str(
                "Attempted to add more than one gate onto a single wire. The positions in [",
            );
            let mut i: usize = 0;
            while i < positions.len()
                invariant
                    i <= positions@.len(),
                    message@ == "Attempted to add more than one gate onto a single wire. The positions in ["@
                        + list_items(positions@.take(i as int)),
                decreases positions@.len() - i,
            {
                if i > 0 {
                    message.append(", ");
                }
                push_decimal(&mut message, positions[i]);
                proof {
                    assert(positions@.take(i + 1).drop_last() =~= positions@.take(i as int));
                    if i == 0 {
                        assert(positions@.take(0) =~= Seq::<usize>::empty());
                    }
                }
                i = i + 1;
            }
            message.append("] must all differ.");
            proof {
                assert(positions@.take(positions@.len() as int) =~= positions@);
            }
            return Err(QuantrError { message });
        }
        let n = self.num_qubits;
        let ghost g = gate@;
        let mut column: Vec<Gate<A, F>> = Vec::new();
        let mut j: usize = 0;
        while j < n
            invariant
                j <= n,
                gates_view(column@) == Seq::new(j as nat, |r: int| GateView::<A, F>::Id),
            decreases n - j,
        {
            let ghost before = column@;
            column.push(Gate::Id);
            proof {
                lemma_gates_view_push(before, Gate::Id);
                assert(gates_view(column@) =~= Seq::new((j + 1) as nat, |r: int| GateView::<A, F>::Id));
            }
            j = j + 1;
        }
        let mut i: usize = 0;
        while i < positions.len()
            invariant
                i <= positions@.len(),
                column@.len() == n,
                n == old(self).wires(),
                forall|k: int| 0 <= k < positions@.len() ==> positions@[k] < n,
                gate@ == g,
                gates_view(column@) == repeated_column(n as nat, g, positions@.take(i as int)),
            decreases positions@.len() - i,
        {
            let ghost before = column@;
            column.set(positions[i], gate.replicate());
            proof {
                lemma_gates_view_update(before, positions@[i as int] as int, column@[positions@[i as int] as int]);
                assert forall|r: int| 0 <= r < n implies (#[trigger] positions@.take(i + 1).contains(r as usize)
                    <==> (positions@.take(i as int).contains(r as usize) || positions@[i as int] == r as usize)) by {
                    if positions@.take(i + 1).contains(r as usize) {
                        let w = choose|w: int| 0 <= w < i + 1 && #[trigger] positions@.take(i + 1)[w] == r as usize;
                        if w < i {
                            assert(positions@.take(i as int)[w] == r as usize);
                        }
                    }
                    if positions@.take(i as int).contains(r as usize) {
                        let w = choose|w: int| 0 <= w < i && #[trigger] positions@.take(i as int)[w] == r as usize;
                        assert(positions@.take(i + 1)[w] == r as usize);
                    }
                    if positions@[i as int] == r as usize {
                        assert(positions@.take(i + 1)[i as int] == r as usize);
                    }
                }
                assert(gates_view(column@) =~= repeated_column(n as nat, g, positions@.take(i + 1)));
            }
            i = i + 1;
        }
        proof {
            assert(positions@.take(positions@.len() as int) =~= positions@);
        }
        self.add_gates(column.as_slice())
    }
}


impl<A, F, C> Circuit<A, F, C> {
    /// Changes the register that the circuit is simulated from; by default it is `|0..0>`.
    ///
    /// An error is returned, and the circuit left as it is, if the register's product states do
    /// not have one qubit per wire.
    pub fn change_register(&mut self, super_pos: SuperPosition<C>) -> (res: Result<&mut Circuit<A, F, C>, QuantrError>)
        requires
            old(self).wf(),
        ensures
            match res {
                Ok(r) => {
                    &&& super_pos.dim() == old(self).wires()
                    &&& r.register() == Some(super_pos)
                    &&& r.layout() == old(self).layout()
                    &&& r.wires() == old(self).wires()
                    &&& r.prints_progress() == old(self).prints_progress()
                    &&& r.wf()
                    &&& *final(self) == *final(r)
                },
                Err(e) => {
                    &&& super_pos.dim() != old(self).wires()
                    &&& *final(self) == *old(self)
                    &&& e.message@ == "The custom register has a product state dimension of "@ + decimal(super_pos.dim())
                        + ", while the number of qubits is "@ + decimal(old(self).wires()) + ". These must equal each other."@
                },
            },
    {
        if super_pos.get_num_qubits() != self.num_qubits {
            let mut message = String::from_str("The custom register has a product state dimension of ");
            push_decimal(&mut message, super_pos.get_num_qubits());
            message.append(", while the number of qubits is ");
            push_decimal(&mut message, self.num_qubits);
            message.append(". These must equal each other.");
            return Err(QuantrError { message });
        }
        self.register = Some(super_pos);
        Ok(self)
    }

    /// Removes the register attached to the circuit, to be simulated from.
    pub fn take_register(&mut self) -> (res: Option<SuperPosition<C>>)
        requires
            old(self).wf(),
        ensures
            res == old(self).register(),
            final(self).register() is None,
            final(self).layout() == old(self).layout(),
            final(self).wires() == old(self).wires(),
            final(self).prints_progress() == old(self).prints_progress(),
            final(self).wf(),
    {
        self.register.take()
    }
}


impl<A, F, C> Circuit<A, F, C> {
    /// A circuit from its gates, number of wires, register and progress setting.
    pub(crate) fn from_parts(circuit_gates: Vec<Gate<A, F>>, num_qubits: usize, register: Option<SuperPosition<C>>, config_progress: bool) -> (res: Circuit<A, F, C>)
        ensures
            res.layout() == gates_view(circuit_gates@),
            res.wires() == num_qubits,
            res.register() == register,
            res.prints_progress() == config_progress,
    {
        Circuit { circuit_gates, num_qubits, register, config_progress }
    }

    /// The gates, number of wires, register and progress setting of a circuit.
    pub(crate) fn into_parts(self) -> (res: (Vec<Gate<A, F>>, usize, Option<SuperPosition<C>>, bool))
        ensures
            gates_view(res.0@) == self.layout(),
            res.1 == self.wires(),
            res.2 == self.register(),
            res.3 == self.prints_progress(),
    {
        (self.circuit_gates, self.num_qubits, self.register, self.config_progress)
    }
}

} // verus!
