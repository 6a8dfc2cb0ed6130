//! The result of simulating a circuit: its gates together with the register they produced.

use vstd::prelude::*;

use crate::circuit::layout::{gates_view, layout_well_formed, lemma_gates_view_push};
use crate::circuit::Circuit;
use crate::gate::{Gate, GateView};
use crate::measurement::Measurement;
use crate::states::SuperPosition;

verus! {

/// Contains the superposition produced by the simulation of a circuit, together with the
/// circuit's gates.
pub struct SimulatedCircuit<A, F, C> {
    circuit_gates: Vec<Gate<A, F>>,
    num_qubits: usize,
    register: SuperPosition<C>,
    config_progress: bool,
    disable_warnings: bool,
}

impl<A, F, C> SimulatedCircuit<A, F, C> {
    /// The gates of the simulated circuit, column after column.
    pub closed spec fn layout(&self) -> Seq<GateView<A, F>> {
        gates_view(self.circuit_gates@)
    }

    /// The number of wires of the simulated circuit.
    pub closed spec fn wires(&self) -> nat {
        self.num_qubits as nat
    }

    /// The superposition that the simulation produced.
    pub closed spec fn register(&self) -> SuperPosition<C> {
        self.register
    }

    /// Whether the progress of a simulation is printed.
    pub closed spec fn prints_progress(&self) -> bool {
        self.config_progress
    }

    /// Whether warnings are silenced.
    pub closed spec fn warnings_disabled(&self) -> bool {
        self.disable_warnings
    }

    /// The gates form well-formed columns of at least one wire, and the register has one qubit
    /// per wire.
    pub open spec fn wf(&self) -> bool {
        &&& self.wires() > 0
        &&& layout_well_formed(self.layout(), self.wires())
        &&& self.register().dim() == self.wires()
    }

    /// Returns the superposition that the simulation produced. It is not an observable, as it
    /// would collapse to a single state upon measurement.
    pub fn get_state(&self) -> (res: Measurement<&SuperPosition<C>>)
        ensures
            res == Measurement::NonObservable(&self.register()),
    {
        Measurement::NonObservable(&self.register)
    }

    /// Sets whether warnings are displayed.
    pub fn print_warnings(&mut self, printing: bool)
        ensures
            final(self).warnings_disabled() == !printing,
            final(self).layout() == old(self).layout(),
            final(self).wires() == old(self).wires(),
            final(self).register() == old(self).register(),
            final(self).prints_progress() == old(self).prints_progress(),
    {
        self.disable_warnings = !printing;
    }

    /// Returns whether warnings are silenced.
    pub fn get_warnings_disabled(&self) -> (res: bool)
        ensures
            res == self.warnings_disabled(),
    {
        self.disable_warnings
    }

    /// The gates that composed the circuit, as [Circuit::get_gates] gives them.
    pub fn get_circuit_gates(&self) -> (res: &Vec<Gate<A, F>>)
        ensures
            gates_view(res@) == self.layout(),
    {
        &self.circuit_gates
    }

    /// The number of qubits that composed the circuit.
    pub fn get_num_qubits(&self) -> (res: usize)
        ensures
            res == self.wires(),
    {
        self.num_qubits
    }

    /// Sets whether the progress of a simulation is printed; it is inherited from the circuit.
    pub fn set_print_progress(&mut self, printing: bool)
        ensures
            final(self).prints_progress() == printing,
            final(self).layout() == old(self).layout(),
            final(self).wires() == old(self).wires(),
            final(self).register() == old(self).register(),
            final(self).warnings_disabled() == old(self).warnings_disabled(),
    {
        self.config_progress = printing;
    }

    /// Returns whether the progress of a simulation is printed.
    pub fn get_print_progress(&self) -> (res: bool)
        ensures
            res == self.prints_progress(),
    {
        self.config_progress
    }

    /// Takes ownership of the superposition that the simulation produced.
    pub fn take_state(self) -> (res: Measurement<SuperPosition<C>>)
        ensures
            res == Measurement::NonObservable(self.register()),
    {
        Measurement::NonObservable(self.register)
    }
}

impl<A, F, C: Copy> SimulatedCircuit<A, F, C> {
    /// The circuit again, to be simulated anew from the register `|0..0>` (amplitude `one` on
    /// the first state of the basis and `zero` elsewhere).
    pub fn into_reset_circuit(self, zero: C, one: C) -> (res: Circuit<A, F, C>)
        requires
            self.wf(),
            self.register().amps().len() > 0,
        ensures
            res.wf(),
            res.layout() == self.layout(),
            res.wires() == self.wires(),
            res.prints_progress() == self.prints_progress(),
            res.register() matches Some(r) && r.dim() == self.wires() && r.amps() == Seq::new(
                self.register().amps().len(),
                |i: int| if i == 0 { one } else { zero },
            ),
    {
        let mut register = self.register;
        register.reset_to_zero_state(zero, one);
        Circuit::from_parts(self.circuit_gates, self.num_qubits, Some(register), self.config_progress)
    }
}

impl<A, F, C> Circuit<A, F, C> {
    /// Bundles the circuit with the superposition that its simulation produced.
    pub fn into_simulated(self, register: SuperPosition<C>) -> (res: SimulatedCircuit<A, F, C>)
        requires
            self.wf(),
            register.dim() == self.wires(),
        ensures
            res.wf(),
            res.layout() == self.layout(),
            res.wires() == self.wires(),
            res.register() == register,
            res.prints_progress() == self.prints_progress(),
            !res.warnings_disabled(),
    {
        let (circuit_gates, num_qubits, _, config_progress) = self.into_parts();
        SimulatedCircuit { circuit_gates, num_qubits, register, config_progress, disable_warnings: false }
    }
}

impl<A: Copy, F: Copy, C> Circuit<A, F, C> {
    /// Bundles a copy of the circuit's gates with the superposition that its simulation
    /// produced, leaving the circuit as it is.
    pub fn to_simulated(&self, register: SuperPosition<C>) -> (res: SimulatedCircuit<A, F, C>)
        requires
            self.wf(),
            register.dim() == self.wires(),
        ensures
            res.wf(),
            res.layout() == self.layout(),
            res.wires() == self.wires(),
            res.register() == register,
            res.prints_progress() == self.prints_progress(),
            !res.warnings_disabled(),
    {
        let source = self.get_gates();
        let mut gates: Vec<Gate<A, F>> = Vec::new();
        let mut i: usize = 0;
        while i < source.len()
            invariant
                i <= source@.len(),
                gates_view(gates@) == gates_view(source@).take(i as int),
            decreases source@.len() - i,
        {
            let ghost before = gates@;
            let gate = source[i].replicate();
            gates.push(gate);
            proof {
                lemma_gates_view_push(before, gate);
                assert(gates_view(gates@) =~= gates_view(source@).take(i + 1));
            }
            i = i + 1;
        }
        proof {
            assert(gates_view(gates@) =~= gates_view(source@));
        }
        SimulatedCircuit {
            circuit_gates: gates,
            num_qubits: self.get_num_qubits(),
            register,
            config_progress: self.get_print_progress(),
            disable_warnings: false,
        }
    }
}

impl<A, F, C> SimulatedCircuit<A, F, C> {
    /// Whether measurements should warn that they are taken from the stored register although
    /// the circuit holds custom gates: it holds one, and warnings are not silenced.
    pub fn warns_of_custom_gates(&self) -> (res: bool)
        ensures
            res == (!self.warnings_disabled() && exists|k: int| 0 <= k < self.layout().len() && (#[trigger] self.layout()[k]) is Custom),
    {
        if self.disable_warnings {
            return false;
        }
        let mut k: usize = 0;
        while k < self.circuit_gates.len()
            invariant
                k <= self.circuit_gates@.len(),
                !self.disable_warnings,
                forall|j: int| 0 <= j < k ==> !((#[trigger] self.layout()[j]) is Custom),
            decreases self.circuit_gates@.len() - k,
        {
            proof {
                assert(self.layout()[k as int] == self.circuit_gates@[k as int]@);
            }
            if self.circuit_gates[k].is_custom_gate() {
                proof {
                    assert(self.layout()[k as int] is Custom);
                }
                return true;
            }
            k = k + 1;
        }
        false
    }
}

} // verus!
