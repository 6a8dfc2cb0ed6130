//! Builds the circuit diagram as a UTF-8 string.

use vstd::prelude::*;
use vstd::slice::slice_subrange;
use vstd::utf8::encode_utf8;

use super::layout::{gates_view, layout_well_formed};
use super::Circuit;
use crate::gate::{control_nodes, gate_name, is_single, Gate, GateView};
use crate::text::{push_repeated, repeated};

verus! {

/// The number of bytes of the UTF-8 encoding of a text.
pub open spec fn byte_len(s: Seq<char>) -> nat {
    encode_utf8(s).len()
}

/// `k` spaces.
pub open spec fn spaces(k: nat) -> Seq<char> {
    repeated(" "@, k)
}

/// A thin horizontal line of `k` characters.
pub open spec fn wire(k: nat) -> Seq<char> {
    repeated("─"@, k)
}

/// A heavy horizontal line of `k` characters.
pub open spec fn heavy(k: nat) -> Seq<char> {
    repeated("━"@, k)
}

/// The number of bytes of the longest gate name of a column, and at least one.
pub open spec fn longest_name<A, F>(col: Seq<GateView<A, F>>) -> nat
    decreases col.len(),
{
    if col.len() == 0 {
        1
    } else {
        let rest = longest_name(col.drop_last());
        let l = byte_len(gate_name(col.last()));
        if l > rest {
            l
        } else {
            rest
        }
    }
}

/// The smallest of a sequence of wires.
pub open spec fn min_wire(s: Seq<usize>) -> int
    decreases s.len(),
{
    if s.len() <= 1 {
        s[0] as int
    } else {
        let rest = min_wire(s.drop_last());
        if (s.last() as int) < rest {
            s.last() as int
        } else {
            rest
        }
    }
}

/// The largest of a sequence of wires.
pub open spec fn max_wire(s: Seq<usize>) -> int
    decreases s.len(),
{
    if s.len() <= 1 {
        s[0] as int
    } else {
        let rest = max_wire(s.drop_last());
        if (s.last() as int) > rest {
            s.last() as int
        } else {
            rest
        }
    }
}

/// The four lines (top, name, bottom, connection) drawn for a gate `g` in a column of gates
/// without control nodes, whose longest name has `longest` bytes.
pub open spec fn single_cell<A, F>(g: GateView<A, F>, longest: nat) -> (Seq<char>, Seq<char>, Seq<char>, Seq<char>) {
    if g is Id {
        (spaces(longest + 4), wire(longest + 4), spaces(longest + 4), spaces(longest + 4))
    } else {
        let len = byte_len(gate_name(g));
        let pad = (longest - len) as nat;
        (
            "┏━"@ + heavy(len) + "━┓"@ + spaces(pad),
            "┨ "@ + gate_name(g) + " ┠"@ + wire(pad),
            "┗━"@ + heavy(len) + "━┛"@ + spaces(pad),
            spaces(longest + 4),
        )
    }
}

/// The four lines drawn on wire `row` for a gate `g` with control nodes placed on wire `p`,
/// where `nodes` are its control nodes and its own wire, and `lo` and `hi` the outermost of
/// them.
pub open spec fn multi_cell<A, F>(g: GateView<A, F>, p: int, row: int, lo: int, hi: int, nodes: Seq<usize>) -> (Seq<char>, Seq<char>, Seq<char>, Seq<char>) {
    let len = byte_len(gate_name(g));
    let k = (len - 1) as nat;
    if row == p {
        (
            "┏━"@ + (if p > lo { "┷"@ } else { "━"@ }) + heavy(k) + "━┓"@,
            "┨ "@ + gate_name(g) + " ┠"@,
            "┗━"@ + (if p < hi { "┯"@ } else { "━"@ }) + heavy(k) + "━┛"@,
            "  "@ + (if p < hi { "│"@ } else { " "@ }) + spaces(len + 1),
        )
    } else if row == lo {
        (spaces(len + 4), "──█──"@ + wire(k), "  │  "@ + spaces(k), "  │  "@ + spaces(k))
    } else if row == hi {
        ("  │  "@ + spaces(k), "──█──"@ + wire(k), spaces(len + 4), spaces(len + 4))
    } else if nodes.contains(row as usize) {
        ("  │  "@ + spaces(k), "──█──"@ + wire(k), "  │  "@ + spaces(k), "  │  "@ + spaces(k))
    } else if lo <= row <= hi {
        ("  │  "@ + spaces(k), "──┼──"@ + wire(k), "  │  "@ + spaces(k), "  │  "@ + spaces(k))
    } else {
        (spaces(len + 4), "─────"@ + wire(k), " "@ + spaces(len + 3), " "@ + spaces(len + 3))
    }
}

/// Whether `p` is the first position of the column that holds a gate with control nodes.
pub open spec fn is_first_multi<A, F>(col: Seq<GateView<A, F>>, p: int) -> bool {
    &&& 0 <= p < col.len()
    &&& !is_single(col[p])
    &&& forall|j: int| 0 <= j < p ==> is_single(#[trigger] col[j])
}

/// The control nodes of whichever gate sits on wire `p`, followed by `p`.
pub open spec fn drawn_nodes<A, F>(col: Seq<GateView<A, F>>, p: int) -> Seq<usize> {
    control_nodes(col[p]).unwrap().push(p as usize)
}

/// The four lines drawn on wire `row` for a column: if it holds a gate with control nodes, the
/// first such gate is drawn with its nodes and the other wires as plain wires; otherwise every
/// gate is drawn in a box as wide as the longest name.
pub open spec fn column_cell<A, F>(col: Seq<GateView<A, F>>, row: int) -> (Seq<char>, Seq<char>, Seq<char>, Seq<char>) {
    if exists|p: int| is_first_multi(col, p) {
        let p = choose|p: int| is_first_multi(col, p);
        let nodes = drawn_nodes(col, p);
        multi_cell(col[p], p, row, min_wire(nodes), max_wire(nodes), nodes)
    } else {
        single_cell(col[row], longest_name(col))
    }
}

/// One of the four lines of a cell: 0 for the top, 1 for the name, 2 for the bottom and 3 for
/// the connection to the wire below.
pub open spec fn cell_part(cell: (Seq<char>, Seq<char>, Seq<char>, Seq<char>), k: int) -> Seq<char> {
    if k == 0 {
        cell.0
    } else if k == 1 {
        cell.1
    } else if k == 2 {
        cell.2
    } else {
        cell.3
    }
}

/// The lines of a diagram with one more column drawn on the right: four lines per wire, then
/// one more line that stays empty.
pub open spec fn extend_lines<A, F>(lines: Seq<Seq<char>>, col: Seq<GateView<A, F>>, n: nat) -> Seq<Seq<char>> {
    Seq::new(lines.len(), |i: int| if i < 4 * n { lines[i] + cell_part(column_cell(col, i / 4), i % 4) } else { lines[i] })
}

/// The lines of the diagram of a layout of columns of `n` wires.
pub open spec fn diagram_lines<A, F>(gates: Seq<GateView<A, F>>, n: nat) -> Seq<Seq<char>>
    decreases gates.len(),
{
    if n == 0 || gates.len() < n {
        Seq::new(4 * n + 1, |i: int| Seq::<char>::empty())
    } else {
        extend_lines(diagram_lines(gates.take(gates.len() - n), n), gates.skip(gates.len() - n), n)
    }
}

/// The lines of a diagram joined, each followed by a line break.
pub open spec fn joined_lines(lines: Seq<Seq<char>>) -> Seq<char>
    decreases lines.len(),
{
    if lines.len() == 0 {
        Seq::empty()
    } else {
        joined_lines(lines.drop_last()) + lines.last() + "\n"@
    }
}

/// The diagram of a circuit.
pub open spec fn diagram_of<A, F, C>(c: Circuit<A, F, C>) -> Seq<char> {
    joined_lines(diagram_lines(c.layout(), c.wires()))
}

/// Whether every gate of a layout can be drawn: its name fits a machine word with room to
/// spare, and a gate with control nodes has a name.
pub open spec fn printable<A, F>(gates: Seq<GateView<A, F>>) -> bool {
    forall|k: int|
        0 <= k < gates.len() ==> byte_len(gate_name(#[trigger] gates[k])) + 4 <= usize::MAX && (!is_single(
            gates[k],
        ) ==> byte_len(gate_name(gates[k])) >= 1)
}

/// The four lines drawn on one wire of one column.
struct RowSchematic {
    top: String,
    name: String,
    bottom: String,
    connection: String,
}

impl RowSchematic {
    spec fn lines(&self) -> (Seq<char>, Seq<char>, Seq<char>, Seq<char>) {
        (self.top@, self.name@, self.bottom@, self.connection@)
    }
}

/// Constructs, caches and hands out the diagram of a circuit as a UTF-8 string.
pub struct Printer<'a, A, F, C> {
    circuit: &'a Circuit<A, F, C>,
    diagram: Option<String>,
}


/// The texts of a sequence of strings.
pub open spec fn lines_of(v: Seq<String>) -> Seq<Seq<char>> {
    v.map_values(|s: String| s@)
}

/// The longest name of a column is at least as long as each of its names.
pub(crate) proof fn lemma_longest_name_bound<A, F>(col: Seq<GateView<A, F>>, k: int)
    requires
        0 <= k < col.len(),
    ensures
        byte_len(gate_name(col[k])) <= longest_name(col),
        longest_name(col) >= 1,
    decreases col.len(),
{
    if k < col.len() - 1 {
        lemma_longest_name_bound(col.drop_last(), k);
    }
    lemma_longest_name_positive(col);
}

/// The longest name of a column is counted as at least one byte.
proof fn lemma_longest_name_positive<A, F>(col: Seq<GateView<A, F>>)
    ensures
        longest_name(col) >= 1,
    decreases col.len(),
{
    if col.len() > 0 {
        lemma_longest_name_positive(col.drop_last());
    }
}

/// The longest name of a column is the length of one of its names, or one.
proof fn lemma_longest_name_attained<A, F>(col: Seq<GateView<A, F>>)
    ensures
        longest_name(col) == 1 || exists|k: int| 0 <= k < col.len() && longest_name(col) == byte_len(gate_name(#[trigger] col[k])),
    decreases col.len(),
{
    if col.len() > 0 {
        lemma_longest_name_attained(col.drop_last());
        if longest_name(col) != 1 && longest_name(col) != byte_len(gate_name(col.last())) {
            let k = choose|k: int| 0 <= k < col.drop_last().len() && longest_name(col.drop_last()) == byte_len(gate_name(#[trigger] col.drop_last()[k]));
            assert(col[k] == col.drop_last()[k]);
        }
    }
}

/// The number of bytes of a string.
fn byte_count(s: &String) -> (res: usize)
    ensures
        res == byte_len(s@),
{
    s.as_str().as_bytes().len()
}

/// Appends `text` to the line `i` of the schematic.
fn append_to_line(schematic: &mut Vec<String>, i: usize, text: &String)
    requires
        i < old(schematic)@.len(),
    ensures
        final(schematic)@.len() == old(schematic)@.len(),
        lines_of(final(schematic)@) == lines_of(old(schematic)@).update(i as int, old(schematic)@[i as int]@ + text@),
{
    let mut line = String::new();
    schematic.set_and_swap(i, &mut line);
    line.append(text.as_str());
    schematic.set_and_swap(i, &mut line);
    proof {
        assert(lines_of(schematic@) =~= lines_of(old(schematic)@).update(i as int, old(schematic)@[i as int]@ + text@));
    }
}

/// A string made of `n` copies of `unit`.
fn repeat_text(unit: &str, n: usize) -> (res: String)
    ensures
        res@ == repeated(unit@, n as nat),
{
    let mut res = String::new();
    push_repeated(&mut res, unit, n);
    res
}

impl<'a, A, F, C> Printer<'a, A, F, C> {
    /// The circuit whose diagram is drawn.
    pub closed spec fn circuit(&self) -> Circuit<A, F, C> {
        *self.circuit
    }

    /// The diagram built so far, if any.
    pub closed spec fn cached(&self) -> Option<Seq<char>> {
        match self.diagram {
            Some(d) => Some(d@),
            None => None,
        }
    }

    /// Handles the printing of the given circuit.
    pub fn new(circuit: &'a Circuit<A, F, C>) -> (res: Printer<'a, A, F, C>)
        ensures
            res.circuit() == *circuit,
            res.cached() is None,
    {
        Printer { circuit, diagram: None }
    }

    /// Adds the four lines of a cell to the lines of wire `row_schem_num`.
    fn add_string_to_schematic(schematic: &mut Vec<String>, row_schem_num: usize, cache: RowSchematic)
        requires
            4 * row_schem_num + 3 < old(schematic)@.len(),
        ensures
            final(schematic)@.len() == old(schematic)@.len(),
            forall|i: int|
                0 <= i < old(schematic)@.len() ==> #[trigger] lines_of(final(schematic)@)[i] == if 4 * row_schem_num <= i < 4
                    * row_schem_num + 4 {
                    lines_of(old(schematic)@)[i] + cell_part(cache.lines(), i - 4 * row_schem_num)
                } else {
                    lines_of(old(schematic)@)[i]
                },
    {
        let total = schematic.len();
        let r = 4 * row_schem_num;
        let ghost l0 = lines_of(schematic@);
        proof {
            assert(schematic@[r as int]@ == l0[r as int]);
        }
        append_to_line(schematic, r, &cache.top);
        let ghost l1 = lines_of(schematic@);
        proof {
            assert(schematic@[r + 1]@ == l1[r + 1]);
        }
        append_to_line(schematic, r + 1, &cache.name);
        let ghost l2 = lines_of(schematic@);
        proof {
            assert(schematic@[r + 2]@ == l2[r + 2]);
        }
        append_to_line(schematic, r + 2, &cache.bottom);
        let ghost l3 = lines_of(schematic@);
        proof {
            assert(schematic@[r + 3]@ == l3[r + 3]);
        }
        append_to_line(schematic, r + 3, &cache.connection);
        proof {
            assert forall|i: int| 0 <= i < total implies #[trigger] lines_of(schematic@)[i] == if r <= i < r + 4 {
                l0[i] + cell_part(cache.lines(), i - r)
            } else {
                l0[i]
            } by {
                if i == r {
                } else if i == r + 1 {
                } else if i == r + 2 {
                } else if i == r + 3 {
                }
            }
        }
    }

    /// The lines drawn for a gate without control nodes in a column whose longest name has
    /// `longest` bytes.
    fn single_gate_schematic(gate: &Gate<A, F>, name: &String, longest: usize) -> (res: RowSchematic)
        requires
            is_single(gate@),
            name@ == gate_name(gate@),
            byte_len(name@) <= longest,
            longest + 4 <= usize::MAX,
        ensures
            res.lines() == single_cell(gate@, longest as nat),
    {
        if gate.is_identity() {
            RowSchematic {
                top: repeat_text(" ", longest + 4),
                name: repeat_text("─", longest + 4),
                bottom: repeat_text(" ", longest + 4),
                connection: repeat_text(" ", longest + 4),
            }
        } else {
            let len = byte_count(name);
            let padding = longest - len;
            let mut top = String::from_str("┏━");
            push_repeated(&mut top, "━", len);
            top.append("━┓");
            push_repeated(&mut top, " ", padding);
            let mut middle = String::from_str("┨ ");
            middle.append(name.as_str());
            middle.append(" ┠");
            push_repeated(&mut middle, "─", padding);
            let mut bottom = String::from_str("┗━");
            push_repeated(&mut bottom, "━", len);
            bottom.append("━┛");
            push_repeated(&mut bottom, " ", padding);
            RowSchematic { top, name: middle, bottom, connection: repeat_text(" ", longest + 4) }
        }
    }
}


/// Whether `w` is one of the wires `nodes`.
fn contains_wire(nodes: &Vec<usize>, w: usize) -> (res: bool)
    ensures
        res == nodes@.contains(w),
{
    let mut i: usize = 0;
    while i < nodes.len()
        invariant
            i <= nodes@.len(),
            forall|j: int| 0 <= j < i ==> nodes@[j] != w,
        decreases nodes@.len() - i,
    {
        if nodes[i] == w {
            return true;
        }
        i = i + 1;
    }
    false
}

/// The smallest and the largest of a non-empty sequence of wires.
fn min_max(nodes: &Vec<usize>) -> (res: (usize, usize))
    requires
        nodes@.len() >= 1,
    ensures
        res.0 == min_wire(nodes@),
        res.1 == max_wire(nodes@),
{
    let mut lo = nodes[0];
    let mut hi = nodes[0];
    let mut i: usize = 1;
    while i < nodes.len()
        invariant
            1 <= i <= nodes@.len(),
            lo == min_wire(nodes@.take(i as int)),
            hi == max_wire(nodes@.take(i as int)),
        decreases nodes@.len() - i,
    {
        proof {
            assert(nodes@.take(i + 1).drop_last() =~= nodes@.take(i as int));
        }
        if nodes[i] < lo {
            lo = nodes[i];
        }
        if nodes[i] > hi {
            hi = nodes[i];
        }
        i = i + 1;
    }
    proof {
        assert(nodes@.take(nodes@.len() as int) =~= nodes@);
    }
    (lo, hi)
}

impl<'a, A, F, C> Printer<'a, A, F, C> {
    /// The lines drawn on wire `row` for a gate with control nodes, `gate`, placed on wire
    /// `position`, whose nodes and own wire are `nodes`, spanning the wires `lo` to `hi`.
    fn multi_gate_schematic(gate: &Gate<A, F>, name: &String, position: usize, row: usize, lo: usize, hi: usize, nodes: &Vec<usize>) -> (res: RowSchematic)
        requires
            name@ == gate_name(gate@),
            1 <= byte_len(name@),
            byte_len(name@) + 4 <= usize::MAX,
        ensures
            res.lines() == multi_cell(gate@, position as int, row as int, lo as int, hi as int, nodes@),
    {
        let len = byte_count(name);
        let k = len - 1;
        if row == position {
            let mut top = String::from_str("┏━");
            if position > lo {
                top.append("┷");
            } else {
                top.append("━");
            }
            push_repeated(&mut top, "━", k);
            top.append("━┓");
            let mut middle = String::from_str("┨ ");
            middle.append(name.as_str());
            middle.append(" ┠");
            let mut bottom = String::from_str("┗━");
            if position < hi {
                bottom.append("┯");
            } else {
                bottom.append("━");
            }
            push_repeated(&mut bottom, "━", k);
            bottom.append("━┛");
            let mut connection = String::from_str("  ");
            if position < hi {
                connection.append("│");
            } else {
                connection.append(" ");
            }
            push_repeated(&mut connection, " ", len + 1);
            RowSchematic { top, name: middle, bottom, connection }
        } else if row == lo {
            let mut middle = String::from_str("──█──");
            push_repeated(&mut middle, "─", k);
            let mut bottom = String::from_str("  │  ");
            push_repeated(&mut bottom, " ", k);
            let mut connection = String::from_str("  │  ");
            push_repeated(&mut connection, " ", k);
            RowSchematic { top: repeat_text(" ", len + 4), name: middle, bottom, connection }
        } else if row == hi {
            let mut top = String::from_str("  │  ");
            push_repeated(&mut top, " ", k);
            let mut middle = String::from_str("──█──");
            push_repeated(&mut middle, "─", k);
            RowSchematic { top, name: middle, bottom: repeat_text(" ", len + 4), connection: repeat_text(" ", len + 4) }
        } else if contains_wire(nodes, row) {
            let mut top = String::from_str("  │  ");
            push_repeated(&mut top, " ", k);
            let mut middle = String::from_str("──█──");
            push_repeated(&mut middle, "─", k);
            let mut bottom = String::from_str("  │  ");
            push_repeated(&mut bottom, " ", k);
            let mut connection = String::from_str("  │  ");
            push_repeated(&mut connection, " ", k);
            RowSchematic { top, name: middle, bottom, connection }
        } else if lo <= row && row <= hi {
            let mut top = String::from_str("  │  ");
            push_repeated(&mut top, " ", k);
            let mut middle = String::from_str("──┼──");
            push_repeated(&mut middle, "─", k);
            let mut bottom = String::from_str("  │  ");
            push_repeated(&mut bottom, " ", k);
            let mut connection = String::from_str("  │  ");
            push_repeated(&mut connection, " ", k);
            RowSchematic { top, name: middle, bottom, connection }
        } else {
            let mut middle = String::from_str("─────");
            push_repeated(&mut middle, "─", k);
            let mut bottom = String::from_str(" ");
            push_repeated(&mut bottom, " ", len + 3);
            let mut connection = String::from_str(" ");
            push_repeated(&mut connection, " ", len + 3);
            RowSchematic { top: repeat_text(" ", len + 4), name: middle, bottom, connection }
        }
    }

    /// Draws a column holding a gate with control nodes, `gate`, on wire `position`, and plain
    /// wires elsewhere.
    fn draw_multi_gates(row_schematics: &mut Vec<String>, gate: &Gate<A, F>, name: &String, column_size: usize, position: usize)
        requires
            !is_single(gate@),
            name@ == gate_name(gate@),
            1 <= byte_len(name@),
            byte_len(name@) + 4 <= usize::MAX,
            old(row_schematics)@.len() == 4 * column_size + 1,
        ensures
            final(row_schematics)@.len() == old(row_schematics)@.len(),
            ({
                let nodes = control_nodes(gate@).unwrap().push(position);
                lines_of(final(row_schematics)@) == Seq::new(
                    old(row_schematics)@.len(),
                    |i: int|
                        if i < 4 * column_size {
                            lines_of(old(row_schematics)@)[i] + cell_part(
                                multi_cell(gate@, position as int, i / 4, min_wire(nodes), max_wire(nodes), nodes),
                                i % 4,
                            )
                        } else {
                            lines_of(old(row_schematics)@)[i]
                        },
                )
            }),
    {
        let mut control_nodes = match gate.get_nodes() {
            Some(nodes) => nodes,
            None => {
                proof {
                    assert(false);
                }
                Vec::new()
            },
        };
        control_nodes.push(position);
        let (lo, hi) = min_max(&control_nodes);
        let ghost l0 = lines_of(row_schematics@);
        let ghost g = gate@;
        let mut row: usize = 0;
        while row < column_size
            invariant
                row <= column_size,
                row_schematics@.len() == 4 * column_size + 1,
                l0.len() == 4 * column_size + 1,
                gate@ == g,
                name@ == gate_name(g),
                1 <= byte_len(name@),
                byte_len(name@) + 4 <= usize::MAX,
                lines_of(row_schematics@) == Seq::new(
                    l0.len(),
                    |i: int|
                        if i < 4 * row {
                            l0[i] + cell_part(multi_cell(g, position as int, i / 4, lo as int, hi as int, control_nodes@), i % 4)
                        } else {
                            l0[i]
                        },
                ),
            decreases column_size - row,
        {
            let cache = Self::multi_gate_schematic(gate, name, position, row, lo, hi, &control_nodes);
            let ghost before = lines_of(row_schematics@);
            Self::add_string_to_schematic(row_schematics, row, cache);
            proof {
                assert(lines_of(row_schematics@) =~= Seq::new(
                    l0.len(),
                    |i: int|
                        if i < 4 * (row + 1) {
                            l0[i] + cell_part(multi_cell(g, position as int, i / 4, lo as int, hi as int, control_nodes@), i % 4)
                        } else {
                            l0[i]
                        },
                ));
            }
            row = row + 1;
        }
    }
}


impl<'a, A, F, C> Printer<'a, A, F, C> {
    /// The names of the gates of a column, and the number of bytes of the longest (at least
    /// one).
    fn into_printer_gate_info(gates_column: &[Gate<A, F>]) -> (res: (Vec<String>, usize))
        requires
            printable(gates_view(gates_column@)),
        ensures
            res.0@.len() == gates_column@.len(),
            forall|i: int| 0 <= i < gates_column@.len() ==> (#[trigger] res.0@[i])@ == gate_name(gates_column@[i]@),
            res.1 == longest_name(gates_view(gates_column@)),
    {
        let ghost col = gates_view(gates_column@);
        let mut names: Vec<String> = Vec::new();
        let mut longest_name_length: usize = 1;
        let mut i: usize = 0;
        while i < gates_column.len()
            invariant
                i <= gates_column@.len(),
                col == gates_view(gates_column@),
                printable(col),
                names@.len() == i,
                forall|j: int| 0 <= j < i ==> (#[trigger] names@[j])@ == gate_name(gates_column@[j]@),
                longest_name_length == longest_name(col.take(i as int)),
            decreases gates_column@.len() - i,
        {
            let gate_name_text = gates_column[i].get_name();
            proof {
                assert(col[i as int] == gates_column@[i as int]@);
                assert(byte_len(gate_name(col[i as int])) + 4 <= usize::MAX);
                assert(col.take(i + 1).drop_last() =~= col.take(i as int));
            }
            let gate_name_length = byte_count(&gate_name_text);
            if gate_name_length > longest_name_length {
                longest_name_length = gate_name_length;
            }
            names.push(gate_name_text);
            i = i + 1;
        }
        proof {
            assert(col.take(gates_column@.len() as int) =~= col);
        }
        (names, longest_name_length)
    }

    /// The position of the first gate of the column that has control nodes, if any.
    fn get_multi_gate(gates: &[Gate<A, F>]) -> (res: Option<usize>)
        ensures
            match res {
                Some(p) => is_first_multi(gates_view(gates@), p as int),
                None => forall|p: int| 0 <= p < gates@.len() ==> is_single(#[trigger] gates_view(gates@)[p]),
            },
    {
        let mut pos: usize = 0;
        while pos < gates.len()
            invariant
                pos <= gates@.len(),
                forall|j: int| 0 <= j < pos ==> is_single(#[trigger] gates_view(gates@)[j]),
            decreases gates@.len() - pos,
        {
            proof {
                assert(gates_view(gates@)[pos as int] == gates@[pos as int]@);
            }
            if !gates[pos].is_single_gate() {
                return Some(pos);
            }
            pos = pos + 1;
        }
        None
    }

    /// Draws a column of gates without control nodes, each in a box as wide as the longest
    /// name of the column.
    fn draw_single_gates(row_schematics: &mut Vec<String>, gates_column: &[Gate<A, F>], names: &Vec<String>, longest: usize)
        requires
            forall|p: int| 0 <= p < gates_column@.len() ==> is_single(#[trigger] gates_view(gates_column@)[p]),
            names@.len() == gates_column@.len(),
            forall|i: int| 0 <= i < gates_column@.len() ==> (#[trigger] names@[i])@ == gate_name(gates_column@[i]@),
            longest == longest_name(gates_view(gates_column@)),
            printable(gates_view(gates_column@)),
            old(row_schematics)@.len() == 4 * gates_column@.len() + 1,
        ensures
            final(row_schematics)@.len() == old(row_schematics)@.len(),
            lines_of(final(row_schematics)@) == Seq::new(
                old(row_schematics)@.len(),
                |i: int|
                    if i < 4 * gates_column@.len() {
                        lines_of(old(row_schematics)@)[i] + cell_part(
                            single_cell(gates_view(gates_column@)[i / 4], longest as nat),
                            i % 4,
                        )
                    } else {
                        lines_of(old(row_schematics)@)[i]
                    },
            ),
    {
        let ghost col = gates_view(gates_column@);
        let ghost l0 = lines_of(row_schematics@);
        let n = gates_column.len();
        let mut pos: usize = 0;
        while pos < n
            invariant
                pos <= n,
                n == gates_column@.len(),
                col == gates_view(gates_column@),
                forall|p: int| 0 <= p < n ==> is_single(#[trigger] col[p]),
                names@.len() == n,
                forall|i: int| 0 <= i < n ==> (#[trigger] names@[i])@ == gate_name(gates_column@[i]@),
                longest == longest_name(col),
                printable(col),
                row_schematics@.len() == 4 * n + 1,
                l0.len() == 4 * n + 1,
                lines_of(row_schematics@) == Seq::new(
                    l0.len(),
                    |i: int| if i < 4 * pos { l0[i] + cell_part(single_cell(col[i / 4], longest as nat), i % 4) } else { l0[i] },
                ),
            decreases n - pos,
        {
            proof {
                assert(col[pos as int] == gates_column@[pos as int]@);
                assert(names@[pos as int]@ == gate_name(col[pos as int]));
                lemma_longest_name_bound(col, pos as int);
                lemma_longest_name_attained(col);
                if longest != 1 {
                    let k = choose|k: int| 0 <= k < col.len() && longest_name(col) == byte_len(gate_name(#[trigger] col[k]));
                    assert(byte_len(gate_name(col[k])) + 4 <= usize::MAX);
                }
            }
            let cache = Self::single_gate_schematic(&gates_column[pos], &names[pos], longest);
            Self::add_string_to_schematic(row_schematics, pos, cache);
            proof {
                assert(lines_of(row_schematics@) =~= Seq::new(
                    l0.len(),
                    |i: int| if i < 4 * (pos + 1) { l0[i] + cell_part(single_cell(col[i / 4], longest as nat), i % 4) } else { l0[i] },
                ));
            }
            pos = pos + 1;
        }
    }
}


/// Only one position of a column can hold its first gate with control nodes.
pub(crate) proof fn lemma_first_multi_unique<A, F>(col: Seq<GateView<A, F>>, p: int, q: int)
    requires
        is_first_multi(col, p),
        is_first_multi(col, q),
    ensures
        p == q,
{
    if p < q {
        assert(is_single(col[p]));
    } else if q < p {
        assert(is_single(col[q]));
    }
}

/// A part of a printable layout is printable.
pub(crate) proof fn lemma_printable_subrange<A, F>(gates: Seq<GateView<A, F>>, i: int, j: int)
    requires
        printable(gates),
        0 <= i <= j <= gates.len(),
    ensures
        printable(gates.subrange(i, j)),
{
    let s = gates.subrange(i, j);
    assert forall|k: int| 0 <= k < s.len() implies byte_len(gate_name(#[trigger] s[k])) + 4 <= usize::MAX && (!is_single(
        s[k],
    ) ==> byte_len(gate_name(s[k])) >= 1) by {
        assert(s[k] == gates[i + k]);
    }
}

/// Drawing the first `start + n` gates of a layout draws the column that starts at `start` to
/// the right of the first `start` gates.
proof fn lemma_diagram_step<A, F>(gates: Seq<GateView<A, F>>, start: int, n: nat)
    requires
        n > 0,
        0 <= start,
        start + n <= gates.len(),
    ensures
        diagram_lines(gates.take(start + n), n) == extend_lines(
            diagram_lines(gates.take(start), n),
            gates.subrange(start, start + n),
            n,
        ),
{
    let t = gates.take(start + n);
    assert(t.take(t.len() - n) =~= gates.take(start));
    assert(t.skip(t.len() - n) =~= gates.subrange(start, start + n));
}

/// The models of a part of a sequence of gates are that part of their models.
proof fn lemma_gates_view_subrange<A, F>(gates: Seq<Gate<A, F>>, i: int, j: int)
    requires
        0 <= i <= j <= gates.len(),
    ensures
        gates_view(gates.subrange(i, j)) == gates_view(gates).subrange(i, j),
{
    assert(gates_view(gates.subrange(i, j)) =~= gates_view(gates).subrange(i, j));
}

impl<'a, A, F, C> Printer<'a, A, F, C> {
    /// A diagram kept by the printer is the diagram of its circuit.
    #[verifier::type_invariant]
    spec fn cache_valid(self) -> bool {
        self.diagram matches Some(d) ==> d@ == diagram_of(*self.circuit)
    }

    /// Draws the column `column` of `n` wires to the right of the lines `rows`.
    fn draw_column(rows: &mut Vec<String>, column: &[Gate<A, F>], n: usize)
        requires
            column@.len() == n,
            old(rows)@.len() == 4 * n + 1,
            printable(gates_view(column@)),
        ensures
            final(rows)@.len() == old(rows)@.len(),
            lines_of(final(rows)@) == extend_lines(lines_of(old(rows)@), gates_view(column@), n as nat),
    {
        let ghost col = gates_view(column@);
        let ghost l0 = lines_of(rows@);
        let (names, longest) = Self::into_printer_gate_info(column);
        match Self::get_multi_gate(column) {
            Some(position) => {
                proof {
                    assert(col[position as int] == column@[position as int]@);
                    assert(byte_len(gate_name(col[position as int])) + 4 <= usize::MAX);
                }
                Self::draw_multi_gates(rows, &column[position], &names[position], n, position);
                proof {
                    assert forall|row: int| 0 <= row < n implies #[trigger] column_cell(col, row) == multi_cell(
                        col[position as int],
                        position as int,
                        row,
                        min_wire(drawn_nodes(col, position as int)),
                        max_wire(drawn_nodes(col, position as int)),
                        drawn_nodes(col, position as int),
                    ) by {
                        let p = choose|p: int| is_first_multi(col, p);
                        lemma_first_multi_unique(col, p, position as int);
                    }
                    assert(lines_of(rows@) =~= extend_lines(l0, col, n as nat));
                }
            },
            None => {
                Self::draw_single_gates(rows, column, &names, longest);
                proof {
                    assert forall|row: int| 0 <= row < n implies #[trigger] column_cell(col, row) == single_cell(
                        col[row],
                        longest as nat,
                    ) by {
                        if exists|p: int| is_first_multi(col, p) {
                            let p = choose|p: int| is_first_multi(col, p);
                            assert(is_single(col[p]));
                        }
                    }
                    assert(lines_of(rows@) =~= extend_lines(l0, col, n as nat));
                }
            },
        }
    }

    /// Draws the whole circuit, keeps the diagram, and returns it.
    fn make_diagram(&mut self) -> (res: String)
        requires
            old(self).circuit().wf(),
            printable(old(self).circuit().layout()),
            4 * old(self).circuit().wires() + 1 <= usize::MAX,
        ensures
            final(self).circuit() == old(self).circuit(),
            res@ == diagram_of(old(self).circuit()),
    {
        let gates = self.circuit.get_gates();
        let n = self.circuit.get_num_qubits();
        let ghost gv = gates_view(gates@);
        let mut printed_diagram: Vec<String> = Vec::new();
        let mut i: usize = 0;
        while i < 4 * n + 1
            invariant
                i <= 4 * n + 1,
                4 * n + 1 <= usize::MAX,
                printed_diagram@.len() == i,
                forall|j: int| 0 <= j < i ==> (#[trigger] printed_diagram@[j])@ == Seq::<char>::empty(),
            decreases 4 * n + 1 - i,
        {
            printed_diagram.push(String::new());
            i = i + 1;
        }
        proof {
            assert(gv.take(0) =~= Seq::<GateView<A, F>>::empty());
            assert(lines_of(printed_diagram@) =~= diagram_lines(gv.take(0), n as nat));
            assert(gv.skip(0) =~= gv);
        }
        let total = gates.len();
        let mut start: usize = 0;
        while start < total
            invariant
                n > 0,
                4 * n + 1 <= usize::MAX,
                total == gates@.len(),
                gv == gates_view(gates@),
                printable(gv),
                start <= total,
                layout_well_formed(gv.skip(start as int), n as nat),
                printed_diagram@.len() == 4 * n + 1,
                lines_of(printed_diagram@) == diagram_lines(gv.take(start as int), n as nat),
            decreases total - start,
        {
            proof {
                assert(gv.skip(start as int).len() > 0);
                assert(gv.skip(start as int).skip(n as int) =~= gv.skip(start + n));
                lemma_gates_view_subrange(gates@, start as int, start + n);
                lemma_printable_subrange(gv, start as int, start + n);
                lemma_diagram_step(gv, start as int, n as nat);
            }
            let column = slice_subrange(gates, start, start + n);
            Self::draw_column(&mut printed_diagram, column, n);
            start = start + n;
        }
        proof {
            assert(gv.skip(start as int).len() == 0);
            assert(gv.take(start as int) =~= gv);
        }
        let mut final_diagram = String::new();
        let mut line: usize = 0;
        while line < printed_diagram.len()
            invariant
                line <= printed_diagram@.len(),
                final_diagram@ == joined_lines(lines_of(printed_diagram@).take(line as int)),
            decreases printed_diagram@.len() - line,
        {
            proof {
                let l = lines_of(printed_diagram@);
                assert(l.take(line + 1).drop_last() =~= l.take(line as int));
            }
            final_diagram.append(printed_diagram[line].as_str());
            final_diagram.append("\n");
            line = line + 1;
        }
        proof {
            let l = lines_of(printed_diagram@);
            assert(l.take(line as int) =~= l);
        }
        self.diagram = Some(final_diagram.clone());
        final_diagram
    }

    /// Returns the diagram kept by the printer, or draws it.
    fn get_or_make_diagram(&mut self) -> (res: String)
        requires
            old(self).circuit().wf(),
            printable(old(self).circuit().layout()),
            4 * old(self).circuit().wires() + 1 <= usize::MAX,
        ensures
            final(self).circuit() == old(self).circuit(),
            res@ == diagram_of(old(self).circuit()),
    {
        proof {
            use_type_invariant(&*self);
        }
        match &self.diagram {
            Some(diagram) => diagram.clone(),
            None => self.make_diagram(),
        }
    }

    /// Returns the circuit diagram made of UTF-8 characters: four lines per wire and a last
    /// empty line, each followed by a line break. The diagram is built once and then kept.
    pub fn get_diagram(&mut self) -> (res: String)
        requires
            old(self).circuit().wf(),
            printable(old(self).circuit().layout()),
            4 * old(self).circuit().wires() + 1 <= usize::MAX,
        ensures
            final(self).circuit() == old(self).circuit(),
            res@ == diagram_of(old(self).circuit()),
    {
        self.get_or_make_diagram()
    }
}

/// Whether a gate `g` can be drawn: its name fits a machine word with room to spare, and a
/// gate with control nodes has a name.
fn gate_printable<A, F>(g: &Gate<A, F>) -> (res: bool)
    ensures
        res == (byte_len(gate_name(g@)) + 4 <= usize::MAX && (!is_single(g@) ==> byte_len(gate_name(g@)) >= 1)),
{
    let len = byte_count(&g.get_name());
    len <= usize::MAX - 4 && (g.is_single_gate() || len >= 1)
}

impl<'a, A, F, C> Printer<'a, A, F, C> {
    /// Whether the diagram of the circuit can be drawn: every gate can be drawn, and the lines
    /// of the diagram can be counted.
    pub fn can_draw(&self) -> (res: bool)
        ensures
            res == (printable(self.circuit().layout()) && 4 * self.circuit().wires() + 1 <= usize::MAX),
    {
        let gates = self.circuit.get_gates();
        let n = self.circuit.get_num_qubits();
        let ghost gv = gates_view(gates@);
        let mut k: usize = 0;
        while k < gates.len()
            invariant
                k <= gates@.len(),
                gv == gates_view(gates@),
                gv == self.circuit().layout(),
                forall|j: int|
                    0 <= j < k ==> byte_len(gate_name(#[trigger] gv[j])) + 4 <= usize::MAX && (!is_single(gv[j])
                        ==> byte_len(gate_name(gv[j])) >= 1),
            decreases gates@.len() - k,
        {
            proof {
                assert(gv[k as int] == gates@[k as int]@);
            }
            if !gate_printable(&gates[k]) {
                proof {
                    assert(!(byte_len(gate_name(gv[k as int])) + 4 <= usize::MAX && (!is_single(gv[k as int])
                        ==> byte_len(gate_name(gv[k as int])) >= 1)));
                }
                return false;
            }
            k = k + 1;
        }
        n <= (usize::MAX - 1) / 4
    }

    /// Whether the diagram is expected to exceed 72 characters in width: the circuit has more
    /// than 14 columns.
    pub fn is_too_wide(&self) -> (res: bool)
        requires
            self.circuit().wf(),
        ensures
            res == (self.circuit().layout().len() / self.circuit().wires() > 14),
    {
        self.circuit.get_gates().len() / self.circuit.get_num_qubits() > 14
    }
}

} // verus!
