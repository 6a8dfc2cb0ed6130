# quantr

A gate-based quantum circuit library, written in Verus.

`src/` is the verified library:

- `states`: qubits, product states of the computational basis (labels, indices, inverting and
  overwriting qubits) and superpositions, whose amplitude type is a parameter that the library
  only arranges.
- `gate`, `circuit`: gates, and circuits built column by column. Every column that is added is
  checked (control nodes on the circuit, distinct and off the wire of their gate; ASCII names of the custom
  gates among the first two that are not the identity), and gates with control nodes are moved into columns of their own.
- `circuit::printer`, `circuit::diagram_shape`: the UTF-8 circuit diagram, with its exact text as
  a specification, and the proof that it is a grid of equally wide lines.
- `simulation`, `simulated_circuit`, `standard_gate_ops`: the bookkeeping of a simulation (which
  wires a gate reads, where the states of its image land) and the gates that permute basis states.

`app/` holds what works with floating-point amplitudes, randomness and I/O: the complex amplitudes
of the standard gates, the simulation itself, measurements, and printing or saving diagrams.
