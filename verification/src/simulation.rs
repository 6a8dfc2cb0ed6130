//! The bookkeeping of a simulation: which gate comes next and on which wire, which wires it
//! acts on, and what it reads from a product state.

use vstd::prelude::*;

use crate::circuit::layout::{column_well_formed, gates_view, layout_well_formed, nodes_valid};
use crate::circuit::Circuit;
use crate::gate::{control_nodes, Gate, GateView};
use crate::states::{restricted, ProductState, Qubit};

verus! {

/// The wires that a gate placed on wire `pos` acts on: its control nodes, then its own wire.
/// A gate maps the product state of these wires, in this order.
pub open spec fn acting_wires<A, F>(g: GateView<A, F>, pos: usize) -> Seq<usize> {
    match control_nodes(g) {
        Some(nodes) => nodes.push(pos),
        None => seq![pos],
    }
}

impl<A, F> Gate<A, F> {
    /// The wires that this gate acts on when placed on wire `position`: its control nodes, then
    /// its own wire.
    pub fn acting_positions(&self, position: usize) -> (res: Vec<usize>)
        ensures
            res@ == acting_wires(self@, position),
            res@.len() >= 1,
            res@[res@.len() - 1] == position,
            match control_nodes(self@) {
                Some(nodes) => res@.len() == nodes.len() + 1 && forall|i: int| 0 <= i < nodes.len() ==> res@[i] == nodes[i],
                None => res@.len() == 1,
            },
    {
        match self.get_nodes() {
            Some(nodes) => {
                let mut wires = nodes;
                wires.push(position);
                wires
            },
            None => {
                let mut wires: Vec<usize> = Vec::new();
                wires.push(position);
                proof {
                    assert(wires@ =~= seq![position]);
                }
                wires
            },
        }
    }
}

impl ProductState {
    /// The product state of the qubits at the given positions, in that order: what a gate acting
    /// on those wires reads.
    pub fn restrict(&self, positions: &[usize]) -> (res: ProductState)
        requires
            forall|k: int| 0 <= k < positions@.len() ==> positions@[k] < self@.len(),
        ensures
            res@ == restricted(self@, positions@),
    {
        let mut qubits: Vec<Qubit> = Vec::new();
        let mut k: usize = 0;
        while k < positions.len()
            invariant
                k <= positions@.len(),
                forall|j: int| 0 <= j < positions@.len() ==> positions@[j] < self@.len(),
                qubits@ == restricted(self@, positions@).take(k as int),
            decreases positions@.len() - k,
        {
            qubits.push(self.get_unchecked(positions[k]));
            proof {
                assert(qubits@ =~= restricted(self@, positions@).take(k + 1));
            }
            k = k + 1;
        }
        proof {
            assert(qubits@ =~= restricted(self@, positions@));
        }
        ProductState { qubits }
    }
}

impl<A, F, C> Circuit<A, F, C> {
    /// The next gate that a simulation applies, looking from index `from` of the layout on: the
    /// index of the first gate there that is not the identity, with the wire it sits on.
    pub fn next_gate_to_apply(&self, from: usize) -> (res: Option<(usize, usize)>)
        requires
            self.wf(),
        ensures
            match res {
                Some((k, pos)) => {
                    &&& from <= k < self.layout().len()
                    &&& !(self.layout()[k as int] is Id)
                    &&& forall|j: int| from <= j < k ==> (#[trigger] self.layout()[j]) is Id
                    &&& pos == k as int % self.wires() as int
                },
                None => forall|j: int| from <= j < self.layout().len() ==> (#[trigger] self.layout()[j]) is Id,
            },
    {
        let gates = self.get_gates();
        let n = self.get_num_qubits();
        let mut k: usize = from;
        while k < gates.len()
            invariant
                from <= k,
                gates_view(gates@) == self.layout(),
                n == self.wires(),
                n > 0,
                forall|j: int| from <= j < k && j < gates@.len() ==> (#[trigger] self.layout()[j]) is Id,
            decreases gates@.len() - k,
        {
            proof {
                assert(self.layout()[k as int] == gates@[k as int]@);
            }
            if !gates[k].is_identity() {
                return Some((k, k % n));
            }
            k = k + 1;
        }
        None
    }
}

/// A gate reads its control nodes first, in their order, and its own wire last: in the product
/// state of its acting wires, the qubit at position `i` below the number of control nodes is the
/// qubit of the `i`-th control node, and the last qubit is the one on its own wire.
pub proof fn law_gate_reads_controls_then_own_wire<A, F>(g: GateView<A, F>, pos: usize, s: Seq<Qubit>)
    requires
        pos < s.len(),
        control_nodes(g) matches Some(nodes) ==> forall|i: int| 0 <= i < nodes.len() ==> nodes[i] < s.len(),
    ensures
        ({
            let read = restricted(s, acting_wires(g, pos));
            &&& read.len() >= 1
            &&& read[read.len() - 1] == s[pos as int]
            &&& match control_nodes(g) {
                Some(nodes) => read.len() == nodes.len() + 1 && forall|i: int|
                    0 <= i < nodes.len() ==> read[i] == s[nodes[i] as int],
                None => read.len() == 1,
            }
        }),
{
    let w = acting_wires(g, pos);
    match control_nodes(g) {
        Some(nodes) => {
            assert(w.len() == nodes.len() + 1);
            assert(w[w.len() - 1] == pos);
            assert forall|i: int| 0 <= i < nodes.len() implies w[i] == nodes[i] by {}
        },
        None => {
            assert(w =~= seq![pos]);
        },
    }
}

/// A gate of a well-formed layout at index `k` sits on wire `k % n`, and its acting wires are
/// distinct wires of the circuit.
pub proof fn lemma_layout_gate_nodes<A, F>(gates: Seq<GateView<A, F>>, n: nat, k: int)
    requires
        layout_well_formed(gates, n),
        0 <= k < gates.len(),
    ensures
        n > 0,
        nodes_valid(gates[k], k % (n as int), n),
    decreases gates.len(),
{
    if k < n {
        assert(column_well_formed(gates.take(n as int), n));
        assert(gates.take(n as int)[k] == gates[k]);
        assert(nodes_valid(gates.take(n as int)[k], k, n));
        vstd::arithmetic::div_mod::lemma_small_mod(k as nat, n);
    } else {
        lemma_layout_gate_nodes(gates.skip(n as int), n, k - n);
        assert(gates.skip(n as int)[k - n] == gates[k]);
        vstd::arithmetic::div_mod::lemma_mod_sub_multiples_vanish(k, n as int);
    }
}

/// Every gate of a well-formed circuit acts on distinct wires of the circuit, so that what the
/// simulation writes back on those wires is what its image under that gate holds.
pub proof fn law_acting_wires_distinct<A, F, C>(c: Circuit<A, F, C>, k: int)
    requires
        c.wf(),
        0 <= k < c.layout().len(),
    ensures
        acting_wires(c.layout()[k], (k % (c.wires() as int)) as usize).no_duplicates(),
        forall|i: int|
            0 <= i < acting_wires(c.layout()[k], (k % (c.wires() as int)) as usize).len()
                ==> #[trigger] acting_wires(c.layout()[k], (k % (c.wires() as int)) as usize)[i] < c.wires(),
{
    let n = c.wires();
    c.lemma_wires_fit();
    lemma_layout_gate_nodes(c.layout(), n, k);
    let pos = k % (n as int);
    let w = acting_wires(c.layout()[k], pos as usize);
    match control_nodes(c.layout()[k]) {
        Some(nodes) => {
            assert forall|a: int, b: int| 0 <= a < w.len() && 0 <= b < w.len() && a != b implies w[a] != w[b] by {
                if a < nodes.len() && b < nodes.len() {
                } else if a < nodes.len() {
                    assert(nodes[a] != pos);
                } else {
                    assert(nodes[b] != pos);
                }
            }
        },
        None => {},
    }
}

} // verus!
