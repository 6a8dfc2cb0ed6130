//! The gates that can be placed on the wires of a circuit.

use vstd::prelude::*;

verus! {

/// Gates that can be added to a [crate::Circuit].
///
/// Matrix representations of these gates can be found at
/// <https://www.quantum-inspire.com/kbase/cqasm-qubit-gate-operations/>.
///
/// The type `A` carries the angles of the rotation gates, and `F` the mapping that defines a
/// custom gate. The layout of a circuit never looks into either: they are only carried to the
/// simulation.
#[derive(Clone, PartialEq, Debug)]
pub enum Gate<A, F> {
    /// Identity.
    Id,
    /// Hadamard.
    H,
    /// Pauli-X.
    X,
    /// Pauli-Y.
    Y,
    /// Pauli-Z.
    Z,
    /// Phase, rotation of +π/2 around the z-axis.
    S,
    /// Phase dagger, rotation of -π/2 around the z-axis.
    Sdag,
    /// T.
    T,
    /// T dagger.
    Tdag,
    /// Rotation around x-axis, with angle.
    Rx(A),
    /// Rotation around y-axis, with angle.
    Ry(A),
    /// Rotation around z-axis, with angle.
    Rz(A),
    /// Rotation of +π/2 around x-axis.
    X90,
    /// Rotation of +π/2 around y-axis.
    Y90,
    /// Rotation of -π/2 around x-axis.
    MX90,
    /// Rotation of -π/2 around y-axis.
    MY90,
    /// Global phase, `exp(i*theta/2) * Identity`, with angle.
    Phase(A),
    /// Controlled phase shift, with rotation and position of control node respectively.
    CR(A, usize),
    /// Controlled phase shift for Quantum Fourier Transforms, with rotation and position
    /// of control node respectively.
    CRk(i32, usize),
    /// Controlled Pauli-Z, with position of control node.
    CZ(usize),
    /// Controlled Pauli-Y, with position of control node.
    CY(usize),
    /// Controlled Not, with position of control node.
    CNot(usize),
    /// Swap, with position of control node.
    Swap(usize),
    /// Toffoli, with position of control nodes.
    Toffoli(usize, usize),
    /// A custom gate: its mapping on product states, the positions of its control
    /// nodes and the name displayed in the printed diagram. The name should be ASCII.
    Custom(F, Vec<usize>, String),
}

/// The mathematical model of a [Gate]: the same variants, with the control nodes and the name
/// of a custom gate taken as sequences.
pub enum GateView<A, F> {
    Id,
    H,
    X,
    Y,
    Z,
    S,
    Sdag,
    T,
    Tdag,
    Rx(A),
    Ry(A),
    Rz(A),
    X90,
    Y90,
    MX90,
    MY90,
    Phase(A),
    CR(A, usize),
    CRk(i32, usize),
    CZ(usize),
    CY(usize),
    CNot(usize),
    Swap(usize),
    Toffoli(usize, usize),
    Custom(F, Seq<usize>, Seq<char>),
}

impl<A, F> View for Gate<A, F> {
    type V = GateView<A, F>;

    open spec fn view(&self) -> GateView<A, F> {
        match self {
            Gate::Id => GateView::Id,
            Gate::H => GateView::H,
            Gate::X => GateView::X,
            Gate::Y => GateView::Y,
            Gate::Z => GateView::Z,
            Gate::S => GateView::S,
            Gate::Sdag => GateView::Sdag,
            Gate::T => GateView::T,
            Gate::Tdag => GateView::Tdag,
            Gate::Rx(a) => GateView::Rx(*a),
            Gate::Ry(a) => GateView::Ry(*a),
            Gate::Rz(a) => GateView::Rz(*a),
            Gate::X90 => GateView::X90,
            Gate::Y90 => GateView::Y90,
            Gate::MX90 => GateView::MX90,
            Gate::MY90 => GateView::MY90,
            Gate::Phase(a) => GateView::Phase(*a),
            Gate::CR(a, c) => GateView::CR(*a, *c),
            Gate::CRk(k, c) => GateView::CRk(*k, *c),
            Gate::CZ(c) => GateView::CZ(*c),
            Gate::CY(c) => GateView::CY(*c),
            Gate::CNot(c) => GateView::CNot(*c),
            Gate::Swap(c) => GateView::Swap(*c),
            Gate::Toffoli(c1, c2) => GateView::Toffoli(*c1, *c2),
            Gate::Custom(f, nodes, name) => GateView::Custom(*f, nodes@, name@),
        }
    }
}

/// The control nodes of a gate, or `None` for a gate that acts on its own wire only.
pub open spec fn control_nodes<A, F>(g: GateView<A, F>) -> Option<Seq<usize>> {
    match g {
        GateView::CNot(c) => Some(seq![c]),
        GateView::Swap(c) => Some(seq![c]),
        GateView::CZ(c) => Some(seq![c]),
        GateView::CY(c) => Some(seq![c]),
        GateView::CR(_, c) => Some(seq![c]),
        GateView::CRk(_, c) => Some(seq![c]),
        GateView::Toffoli(c1, c2) => Some(seq![c1, c2]),
        GateView::Custom(_, nodes, _) => Some(nodes),
        _ => None,
    }
}

/// Whether a gate acts on its own wire only (it has no control nodes).
pub open spec fn is_single<A, F>(g: GateView<A, F>) -> bool {
    control_nodes(g) is None
}

/// The name under which a gate is drawn in the circuit diagram.
pub open spec fn gate_name<A, F>(g: GateView<A, F>) -> Seq<char> {
    match g {
        GateView::Id => ""@,
        GateView::X => "X"@,
        GateView::H => "H"@,
        GateView::S => "S"@,
        GateView::Sdag => "S*"@,
        GateView::T => "T"@,
        GateView::Tdag => "T*"@,
        GateView::Y => "Y"@,
        GateView::Z => "Z"@,
        GateView::Rx(_) => "Rx"@,
        GateView::Ry(_) => "Ry"@,
        GateView::Rz(_) => "Rz"@,
        GateView::Phase(_) => "P"@,
        GateView::X90 => "X90"@,
        GateView::Y90 => "Y90"@,
        GateView::MX90 => "X90*"@,
        GateView::MY90 => "Y90*"@,
        GateView::CR(_, _) => "CR"@,
        GateView::CRk(_, _) => "CRk"@,
        GateView::Swap(_) => "Sw"@,
        GateView::CZ(_) => "Z"@,
        GateView::CY(_) => "Y"@,
        GateView::CNot(_) => "X"@,
        GateView::Toffoli(_, _) => "X"@,
        GateView::Custom(_, _, name) => name,
    }
}

/// What a gate applies on its own wire, numbered: a controlled not and a Toffoli gate
/// apply X, a controlled Z applies Z and a controlled Y applies Y; each other gate is a kind of
/// its own.
pub open spec fn applied_kind<A, F>(g: GateView<A, F>) -> int {
    match g {
        GateView::Id => 0,
        GateView::H => 1,
        GateView::X => 2,
        GateView::Y => 3,
        GateView::Z => 4,
        GateView::S => 5,
        GateView::Sdag => 6,
        GateView::T => 7,
        GateView::Tdag => 8,
        GateView::Rx(_) => 9,
        GateView::Ry(_) => 10,
        GateView::Rz(_) => 11,
        GateView::X90 => 12,
        GateView::Y90 => 13,
        GateView::MX90 => 14,
        GateView::MY90 => 15,
        GateView::Phase(_) => 16,
        GateView::CR(_, _) => 17,
        GateView::CRk(_, _) => 18,
        GateView::Swap(_) => 19,
        GateView::CZ(_) => 4,
        GateView::CY(_) => 3,
        GateView::CNot(_) => 2,
        GateView::Toffoli(_, _) => 2,
        GateView::Custom(_, _, _) => 20,
    }
}

/// The kind of gate that a name is read as, from its characters; -1 for a name that no gate
/// other than a custom one has.
spec fn name_kind(s: Seq<char>) -> int {
    if s.len() == 0 {
        0
    } else if s.len() == 1 {
        if s[0] == 'H' {
            1
        } else if s[0] == 'X' {
            2
        } else if s[0] == 'Y' {
            3
        } else if s[0] == 'Z' {
            4
        } else if s[0] == 'S' {
            5
        } else if s[0] == 'T' {
            7
        } else if s[0] == 'P' {
            16
        } else {
            -1
        }
    } else if s.len() == 2 {
        if s[0] == 'S' && s[1] == '*' {
            6
        } else if s[0] == 'T' && s[1] == '*' {
            8
        } else if s[0] == 'R' && s[1] == 'x' {
            9
        } else if s[0] == 'R' && s[1] == 'y' {
            10
        } else if s[0] == 'R' && s[1] == 'z' {
            11
        } else if s[0] == 'C' && s[1] == 'R' {
            17
        } else if s[0] == 'S' && s[1] == 'w' {
            19
        } else {
            -1
        }
    } else if s.len() == 3 {
        if s[0] == 'X' && s[1] == '9' && s[2] == '0' {
            12
        } else if s[0] == 'Y' && s[1] == '9' && s[2] == '0' {
            13
        } else if s[0] == 'C' && s[1] == 'R' && s[2] == 'k' {
            18
        } else {
            -1
        }
    } else if s.len() == 4 && s[1] == '9' && s[2] == '0' && s[3] == '*' {
        if s[0] == 'X' {
            14
        } else if s[0] == 'Y' {
            15
        } else {
            -1
        }
    } else {
        -1
    }
}

/// The name of a gate that is not custom is read back as the kind of gate it applies.
proof fn lemma_name_kind<A, F>(g: GateView<A, F>)
    requires
        !(g is Custom),
    ensures
        name_kind(gate_name(g)) == applied_kind(g),
{
    reveal_strlit("");
    reveal_strlit("X");
    reveal_strlit("H");
    reveal_strlit("S");
    reveal_strlit("S*");
    reveal_strlit("T");
    reveal_strlit("T*");
    reveal_strlit("Y");
    reveal_strlit("Z");
    reveal_strlit("Rx");
    reveal_strlit("Ry");
    reveal_strlit("Rz");
    reveal_strlit("P");
    reveal_strlit("X90");
    reveal_strlit("Y90");
    reveal_strlit("X90*");
    reveal_strlit("Y90*");
    reveal_strlit("CR");
    reveal_strlit("CRk");
    reveal_strlit("Sw");
    assert("X"@[0] == 'X');
    assert("H"@[0] == 'H');
    assert("S"@[0] == 'S');
    assert("S*"@[0] == 'S');
    assert("S*"@[1] == '*');
    assert("T"@[0] == 'T');
    assert("T*"@[0] == 'T');
    assert("T*"@[1] == '*');
    assert("Y"@[0] == 'Y');
    assert("Z"@[0] == 'Z');
    assert("Rx"@[0] == 'R');
    assert("Rx"@[1] == 'x');
    assert("Ry"@[0] == 'R');
    assert("Ry"@[1] == 'y');
    assert("Rz"@[0] == 'R');
    assert("Rz"@[1] == 'z');
    assert("P"@[0] == 'P');
    assert("X90"@[0] == 'X');
    assert("X90"@[1] == '9');
    assert("X90"@[2] == '0');
    assert("Y90"@[0] == 'Y');
    assert("Y90"@[1] == '9');
    assert("Y90"@[2] == '0');
    assert("X90*"@[0] == 'X');
    assert("X90*"@[1] == '9');
    assert("X90*"@[2] == '0');
    assert("X90*"@[3] == '*');
    assert("Y90*"@[0] == 'Y');
    assert("Y90*"@[1] == '9');
    assert("Y90*"@[2] == '0');
    assert("Y90*"@[3] == '*');
    assert("CR"@[0] == 'C');
    assert("CR"@[1] == 'R');
    assert("CRk"@[0] == 'C');
    assert("CRk"@[1] == 'R');
    assert("CRk"@[2] == 'k');
    assert("Sw"@[0] == 'S');
    assert("Sw"@[1] == 'w');
}

/// Gates that are not custom and apply the same gate on their own wire have the same name.
proof fn lemma_same_kind_same_name<A, F>(g1: GateView<A, F>, g2: GateView<A, F>)
    requires
        !(g1 is Custom),
        !(g2 is Custom),
        applied_kind(g1) == applied_kind(g2),
    ensures
        gate_name(g1) == gate_name(g2),
{
    match g1 {
        GateView::X | GateView::CNot(_) | GateView::Toffoli(_, _) => {},
        GateView::Y | GateView::CY(_) => {},
        GateView::Z | GateView::CZ(_) => {},
        _ => {},
    }
}

/// Gates that are not custom are drawn under the same name exactly when they apply the same
/// gate on their own wire: a controlled gate is named after what it controls, and any other
/// two gates of different kinds have different names.
pub proof fn law_gate_names<A, F>(g1: GateView<A, F>, g2: GateView<A, F>)
    requires
        !(g1 is Custom),
        !(g2 is Custom),
    ensures
        (gate_name(g1) == gate_name(g2)) <==> (applied_kind(g1) == applied_kind(g2)),
{
    lemma_name_kind(g1);
    lemma_name_kind(g2);
    if applied_kind(g1) == applied_kind(g2) {
        lemma_same_kind_same_name(g1, g2);
    }
}

/// A controlled gate is drawn under the name of what it applies: the controlled Z as Z, the
/// controlled Y as Y, the controlled not and the Toffoli gate as X.
pub proof fn law_controlled_gate_names<A, F>(c: usize, d: usize)
    ensures
        gate_name(GateView::<A, F>::CZ(c)) == gate_name(GateView::<A, F>::Z),
        gate_name(GateView::<A, F>::CY(c)) == gate_name(GateView::<A, F>::Y),
        gate_name(GateView::<A, F>::CNot(c)) == gate_name(GateView::<A, F>::X),
        gate_name(GateView::<A, F>::Toffoli(c, d)) == gate_name(GateView::<A, F>::X),
{
}

fn copy_positions(positions: &Vec<usize>) -> (res: Vec<usize>)
    ensures
        res@ == positions@,
{
    let mut res: Vec<usize> = Vec::new();
    let mut i: usize = 0;
    while i < positions.len()
        invariant
            i <= positions@.len(),
            res@ == positions@.subrange(0, i as int),
        decreases positions@.len() - i,
    {
        res.push(positions[i]);
        proof {
            assert(res@ =~= positions@.subrange(0, i + 1));
        }
        i = i + 1;
    }
    proof {
        assert(res@ =~= positions@);
    }
    res
}

impl<A, F> Gate<A, F> {
    /// Retrieves the list of control nodes of a gate, `None` for a gate without any.
    pub fn get_nodes(&self) -> (res: Option<Vec<usize>>)
        ensures
            match res {
                Some(nodes) => control_nodes(self@) == Some(nodes@),
                None => control_nodes(self@) is None,
            },
    {
        match self {
            Gate::CNot(c) | Gate::Swap(c) | Gate::CZ(c) | Gate::CY(c) | Gate::CR(_, c) | Gate::CRk(
                _,
                c,
            ) => {
                let mut nodes: Vec<usize> = Vec::new();
                nodes.push(*c);
                proof {
                    assert(nodes@ =~= seq![*c]);
                }
                Some(nodes)
            },
            Gate::Toffoli(c1, c2) => {
                let mut nodes: Vec<usize> = Vec::new();
                nodes.push(*c1);
                nodes.push(*c2);
                proof {
                    assert(nodes@ =~= seq![*c1, *c2]);
                }
                Some(nodes)
            },
            Gate::Custom(_, nodes, _) => Some(copy_positions(nodes)),
            _ => None,
        }
    }

    /// Whether this gate acts on a single wire, without control nodes.
    pub fn is_single_gate(&self) -> (res: bool)
        ensures
            res == is_single(self@),
    {
        match self {
            Gate::CNot(_) | Gate::Swap(_) | Gate::CZ(_) | Gate::CY(_) | Gate::CR(_, _) | Gate::CRk(
                _,
                _,
            ) | Gate::Toffoli(_, _) | Gate::Custom(_, _, _) => false,
            _ => true,
        }
    }

    /// Whether this gate is a custom gate.
    pub fn is_custom_gate(&self) -> (res: bool)
        ensures
            res == (self@ is Custom),
    {
        match self {
            Gate::Custom(_, _, _) => true,
            _ => false,
        }
    }

    /// Whether this gate is the identity.
    pub fn is_identity(&self) -> (res: bool)
        ensures
            res == (self@ is Id),
    {
        match self {
            Gate::Id => true,
            _ => false,
        }
    }

    /// The name under which this gate is drawn in the circuit diagram.
    pub fn get_name(&self) -> (res: String)
        ensures
            res@ == gate_name(self@),
    {
        match self {
            Gate::Id => String::from_str(""),
            Gate::X => String::from_str("X"),
            Gate::H => String::from_str("H"),
            Gate::S => String::from_str("S"),
            Gate::Sdag => String::from_str("S*"),
            Gate::T => String::from_str("T"),
            Gate::Tdag => String::from_str("T*"),
            Gate::Y => String::from_str("Y"),
            Gate::Z => String::from_str("Z"),
            Gate::Rx(_) => String::from_str("Rx"),
            Gate::Ry(_) => String::from_str("Ry"),
            Gate::Rz(_) => String::from_str("Rz"),
            Gate::Phase(_) => String::from_str("P"),
            Gate::X90 => String::from_str("X90"),
            Gate::Y90 => String::from_str("Y90"),
            Gate::MX90 => String::from_str("X90*"),
            Gate::MY90 => String::from_str("Y90*"),
            Gate::CR(_, _) => String::from_str("CR"),
            Gate::CRk(_, _) => String::from_str("CRk"),
            Gate::Swap(_) => String::from_str("Sw"),
            Gate::CZ(_) => String::from_str("Z"),
            Gate::CY(_) => String::from_str("Y"),
            Gate::CNot(_) => String::from_str("X"),
            Gate::Toffoli(_, _) => String::from_str("X"),
            Gate::Custom(_, _, name) => name.clone(),
        }
    }
}

impl<A: Copy, F: Copy> Gate<A, F> {
    /// A copy of this gate.
    pub fn replicate(&self) -> (res: Self)
        ensures
            res@ == self@,
    {
        match self {
            Gate::Id => Gate::Id,
            Gate::H => Gate::H,
            Gate::X => Gate::X,
            Gate::Y => Gate::Y,
            Gate::Z => Gate::Z,
            Gate::S => Gate::S,
            Gate::Sdag => Gate::Sdag,
            Gate::T => Gate::T,
            Gate::Tdag => Gate::Tdag,
            Gate::Rx(a) => Gate::Rx(*a),
            Gate::Ry(a) => Gate::Ry(*a),
            Gate::Rz(a) => Gate::Rz(*a),
            Gate::X90 => Gate::X90,
            Gate::Y90 => Gate::Y90,
            Gate::MX90 => Gate::MX90,
            Gate::MY90 => Gate::MY90,
            Gate::Phase(a) => Gate::Phase(*a),
            Gate::CR(a, c) => Gate::CR(*a, *c),
            Gate::CRk(k, c) => Gate::CRk(*k, *c),
            Gate::CZ(c) => Gate::CZ(*c),
            Gate::CY(c) => Gate::CY(*c),
            Gate::CNot(c) => Gate::CNot(*c),
            Gate::Swap(c) => Gate::Swap(*c),
            Gate::Toffoli(c1, c2) => Gate::Toffoli(*c1, *c2),
            Gate::Custom(f, nodes, name) => Gate::Custom(*f, copy_positions(nodes), name.clone()),
        }
    }
}

} // verus!
