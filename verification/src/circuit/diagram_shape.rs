//! The shape of the circuit diagram: a grid whose lines on the wires are all equally wide.

use vstd::prelude::*;
use vstd::utf8::{is_ascii_chars, is_ascii_chars_encode_utf8};

use super::printer::{
    byte_len, cell_part, column_cell, diagram_lines, drawn_nodes, extend_lines, heavy, is_first_multi,
    lemma_longest_name_bound, longest_name, max_wire, min_wire, multi_cell, printable, single_cell, spaces,
    wire,
};
use crate::gate::{control_nodes, gate_name, is_single, GateView};
use crate::text::repeated;

verus! {

/// Whether every gate name of a layout is made of ASCII characters.
pub open spec fn ascii_names<A, F>(gates: Seq<GateView<A, F>>) -> bool {
    forall|k: int| 0 <= k < gates.len() ==> is_ascii_chars(gate_name(#[trigger] gates[k]))
}

/// The number of characters that a column adds to each line drawn on its wires: four more
/// than the name of its first gate with control nodes, or else than its longest name.
pub open spec fn column_width<A, F>(col: Seq<GateView<A, F>>) -> nat {
    if exists|p: int| is_first_multi(col, p) {
        let p = choose|p: int| is_first_multi(col, p);
        byte_len(gate_name(col[p])) + 4
    } else {
        longest_name(col) + 4
    }
}

/// The pieces that the cells are drawn with, and their numbers of characters.
proof fn lemma_piece_lengths()
    ensures
        "┏━"@.len() == 2,
        "━┓"@.len() == 2,
        "┨ "@.len() == 2,
        " ┠"@.len() == 2,
        "┗━"@.len() == 2,
        "━┛"@.len() == 2,
        "  "@.len() == 2,
        "┷"@.len() == 1,
        "┯"@.len() == 1,
        "━"@.len() == 1,
        "│"@.len() == 1,
        " "@.len() == 1,
        "─"@.len() == 1,
        "──█──"@.len() == 5,
        "  │  "@.len() == 5,
        "──┼──"@.len() == 5,
        "─────"@.len() == 5,
{
    reveal_strlit("┏━");
    reveal_strlit("━┓");
    reveal_strlit("┨ ");
    reveal_strlit(" ┠");
    reveal_strlit("┗━");
    reveal_strlit("━┛");
    reveal_strlit("  ");
    reveal_strlit("┷");
    reveal_strlit("┯");
    reveal_strlit("━");
    reveal_strlit("│");
    reveal_strlit(" ");
    reveal_strlit("─");
    reveal_strlit("──█──");
    reveal_strlit("  │  ");
    reveal_strlit("──┼──");
    reveal_strlit("─────");
}

/// `n` copies of a single character are `n` characters long.
proof fn lemma_repeated_len(unit: Seq<char>, n: nat)
    requires
        unit.len() == 1,
    ensures
        repeated(unit, n).len() == n,
    decreases n,
{
    if n > 0 {
        lemma_repeated_len(unit, (n - 1) as nat);
    }
}

/// Runs of spaces, thin and heavy lines are as long as asked.
proof fn lemma_run_lengths(k: nat)
    ensures
        spaces(k).len() == k,
        wire(k).len() == k,
        heavy(k).len() == k,
{
    lemma_piece_lengths();
    lemma_repeated_len(" "@, k);
    lemma_repeated_len("─"@, k);
    lemma_repeated_len("━"@, k);
}

/// An ASCII name has as many characters as bytes.
proof fn lemma_ascii_name_len(name: Seq<char>)
    requires
        is_ascii_chars(name),
    ensures
        name.len() == byte_len(name),
{
    is_ascii_chars_encode_utf8(name);
}

/// Each line of the cell of a gate in a column without control nodes is four characters wider
/// than the longest name of the column.
proof fn lemma_single_cell_width<A, F>(g: GateView<A, F>, longest: nat, k: int)
    requires
        byte_len(gate_name(g)) <= longest,
        is_ascii_chars(gate_name(g)),
        0 <= k < 4,
    ensures
        cell_part(single_cell(g, longest), k).len() == longest + 4,
{
    lemma_piece_lengths();
    lemma_run_lengths(longest + 4);
    let len = byte_len(gate_name(g));
    let pad = (longest - len) as nat;
    lemma_run_lengths(len);
    lemma_run_lengths(pad);
    lemma_ascii_name_len(gate_name(g));
}

/// Each line of the cell of a gate with control nodes, on any wire, is four characters wider
/// than its name.
proof fn lemma_multi_cell_width<A, F>(g: GateView<A, F>, p: int, row: int, lo: int, hi: int, nodes: Seq<usize>, k: int)
    requires
        byte_len(gate_name(g)) >= 1,
        is_ascii_chars(gate_name(g)),
        0 <= k < 4,
    ensures
        cell_part(multi_cell(g, p, row, lo, hi, nodes), k).len() == byte_len(gate_name(g)) + 4,
{
    let len = byte_len(gate_name(g));
    lemma_piece_lengths();
    lemma_run_lengths(len + 4);
    lemma_run_lengths(len + 3);
    lemma_run_lengths(len + 1);
    lemma_run_lengths((len - 1) as nat);
    lemma_ascii_name_len(gate_name(g));
}

/// Each line of the cell drawn on a wire of a column is as wide as the column.
proof fn lemma_column_cell_width<A, F>(col: Seq<GateView<A, F>>, row: int, k: int)
    requires
        ascii_names(col),
        printable(col),
        0 <= row < col.len(),
        0 <= k < 4,
    ensures
        cell_part(column_cell(col, row), k).len() == column_width(col),
{
    if exists|p: int| is_first_multi(col, p) {
        let p = choose|p: int| is_first_multi(col, p);
        assert(is_ascii_chars(gate_name(col[p])));
        assert(!is_single(col[p]));
        let nodes = drawn_nodes(col, p);
        lemma_multi_cell_width(col[p], p, row, min_wire(nodes), max_wire(nodes), nodes, k);
    } else {
        lemma_longest_name_bound(col, row);
        assert(is_ascii_chars(gate_name(col[row])));
        lemma_single_cell_width(col[row], longest_name(col), k);
    }
}

/// The circuit diagram is a grid: it has four lines for each wire and a last line that stays
/// empty, and the lines on the wires are all equally wide, provided every name of a gate is
/// ASCII and every gate with control nodes has a name.
pub proof fn law_diagram_rectangular<A, F>(gates: Seq<GateView<A, F>>, n: nat)
    requires
        n > 0,
        ascii_names(gates),
        printable(gates),
    ensures
        diagram_lines(gates, n).len() == 4 * n + 1,
        diagram_lines(gates, n)[4 * n as int].len() == 0,
        forall|i: int|
            0 <= i < 4 * n ==> (#[trigger] diagram_lines(gates, n)[i]).len() == diagram_lines(gates, n)[0].len(),
    decreases gates.len(),
{
    if gates.len() >= n {
        let rest = gates.take(gates.len() - n);
        let col = gates.skip(gates.len() - n);
        assert forall|k: int| 0 <= k < rest.len() implies is_ascii_chars(gate_name(#[trigger] rest[k])) by {
            assert(rest[k] == gates[k]);
        }
        assert forall|k: int| 0 <= k < col.len() implies is_ascii_chars(gate_name(#[trigger] col[k])) by {
            assert(col[k] == gates[gates.len() - n + k]);
        }
        assert(rest =~= gates.subrange(0, gates.len() - n));
        assert(col =~= gates.subrange(gates.len() - n, gates.len() as int));
        super::printer::lemma_printable_subrange(gates, 0, gates.len() - n);
        super::printer::lemma_printable_subrange(gates, gates.len() - n, gates.len() as int);
        law_diagram_rectangular(rest, n);
        let lines = diagram_lines(rest, n);
        let ext = extend_lines(lines, col, n);
        assert(diagram_lines(gates, n) == ext);
        assert forall|i: int| 0 <= i < 4 * n implies (#[trigger] ext[i]).len() == lines[0].len() + column_width(col) by {
            lemma_column_cell_width(col, i / 4, i % 4);
            assert(lines[i].len() == lines[0].len());
        }
        lemma_column_cell_width(col, 0, 0);
    }
}

/// The smallest of a non-empty sequence of wires is one of them and no larger than any.
proof fn lemma_min_wire(s: Seq<usize>)
    requires
        s.len() >= 1,
    ensures
        exists|i: int| 0 <= i < s.len() && s[i] == min_wire(s),
        forall|i: int| 0 <= i < s.len() ==> min_wire(s) <= s[i],
    decreases s.len(),
{
    if s.len() == 1 {
        assert(s[0] == min_wire(s));
    }
    if s.len() > 1 {
        let rest = s.drop_last();
        lemma_min_wire(rest);
        let i = choose|i: int| 0 <= i < rest.len() && rest[i] == min_wire(rest);
        assert(s[i] == rest[i]);
        assert(s[s.len() - 1] == s.last());
        if (s.last() as int) < min_wire(rest) {
            assert(s[s.len() - 1] == min_wire(s));
        } else {
            assert(s[i] == min_wire(s));
        }
        assert forall|j: int| 0 <= j < s.len() implies min_wire(s) <= s[j] by {
            if j < rest.len() {
                assert(s[j] == rest[j]);
            }
        }
    }
}

/// The largest of a non-empty sequence of wires is one of them and no smaller than any.
proof fn lemma_max_wire(s: Seq<usize>)
    requires
        s.len() >= 1,
    ensures
        exists|i: int| 0 <= i < s.len() && s[i] == max_wire(s),
        forall|i: int| 0 <= i < s.len() ==> max_wire(s) >= s[i],
    decreases s.len(),
{
    if s.len() == 1 {
        assert(s[0] == max_wire(s));
    }
    if s.len() > 1 {
        let rest = s.drop_last();
        lemma_max_wire(rest);
        let i = choose|i: int| 0 <= i < rest.len() && rest[i] == max_wire(rest);
        assert(s[i] == rest[i]);
        assert(s[s.len() - 1] == s.last());
        if (s.last() as int) > max_wire(rest) {
            assert(s[s.len() - 1] == max_wire(s));
        } else {
            assert(s[i] == max_wire(s));
        }
        assert forall|j: int| 0 <= j < s.len() implies max_wire(s) >= s[j] by {
            if j < rest.len() {
                assert(s[j] == rest[j]);
            }
        }
    }
}

/// Whether wire `r` lies strictly between two of the wires `wires`.
pub open spec fn strictly_between(wires: Seq<usize>, r: int) -> bool {
    exists|i: int, j: int| 0 <= i < wires.len() && 0 <= j < wires.len() && #[trigger] wires[i] < r < #[trigger] wires[j]
}

/// How a gate with control nodes is drawn in its column, whose first such gate stands on wire
/// `p`: on its own wire, its name in a box; on the name line of any other wire, a control dot
/// `──█──` if the wire is one of its control nodes, a crossing `──┼──` if the wire lies strictly
/// between two of the wires it spans (its control nodes and `p`) without being a node, and a plain
/// wire `─────` otherwise.
pub proof fn law_control_nodes_drawn<A, F>(col: Seq<GateView<A, F>>, p: int, r: int)
    requires
        is_first_multi(col, p),
        0 <= r < col.len(),
        col.len() <= usize::MAX,
    ensures
        ({
            let nodes = control_nodes(col[p]).unwrap();
            let wires = nodes.push(p as usize);
            let name = cell_part(column_cell(col, r), 1);
            &&& r == p ==> name == "┨ "@ + gate_name(col[p]) + " ┠"@
            &&& r != p && nodes.contains(r as usize) ==> name.take(5) == "──█──"@
            &&& r != p && !nodes.contains(r as usize) && strictly_between(wires, r) ==> name.take(5) == "──┼──"@
            &&& r != p && !nodes.contains(r as usize) && !strictly_between(wires, r) ==> name.take(5) == "─────"@
        }),
{
    lemma_piece_lengths();
    let nodes = control_nodes(col[p]).unwrap();
    let wires = nodes.push(p as usize);
    let q = choose|q: int| is_first_multi(col, q);
    super::printer::lemma_first_multi_unique(col, q, p);
    assert(drawn_nodes(col, p) == wires);
    let lo = min_wire(wires);
    let hi = max_wire(wires);
    lemma_min_wire(wires);
    lemma_max_wire(wires);
    let k = (byte_len(gate_name(col[p])) - 1) as nat;
    assert(column_cell(col, r) == multi_cell(col[p], p, r, lo, hi, wires));
    assert(("──█──"@ + wire(k)).take(5) =~= "──█──"@);
    assert(("──┼──"@ + wire(k)).take(5) =~= "──┼──"@);
    assert(("─────"@ + wire(k)).take(5) =~= "─────"@);
    if r != p {
        assert(wires.contains(r as usize) <==> nodes.contains(r as usize)) by {
            if wires.contains(r as usize) {
                let i = choose|i: int| 0 <= i < wires.len() && wires[i] == r as usize;
                if i < nodes.len() {
                    assert(nodes[i] == r as usize);
                }
            }
            if nodes.contains(r as usize) {
                let i = choose|i: int| 0 <= i < nodes.len() && nodes[i] == r as usize;
                assert(wires[i] == r as usize);
            }
        }
        if r == lo || r == hi {
            let i = choose|i: int| 0 <= i < wires.len() && wires[i] == (if r == lo { lo } else { hi });
            assert(wires.contains(r as usize));
        }
        if !nodes.contains(r as usize) && lo < r < hi {
            let i = choose|i: int| 0 <= i < wires.len() && wires[i] == lo;
            let j = choose|j: int| 0 <= j < wires.len() && wires[j] == hi;
            assert(strictly_between(wires, r));
        }
        if strictly_between(wires, r) {
            let (i, j) = choose|i: int, j: int|
                0 <= i < wires.len() && 0 <= j < wires.len() && #[trigger] wires[i] < r < #[trigger] wires[j];
            assert(lo <= wires[i]);
            assert(wires[j] <= hi);
        }
    }
}

/// Every character of `n` copies of a single character is that character.
proof fn lemma_repeated_char(unit: Seq<char>, n: nat, t: int)
    requires
        unit.len() == 1,
        0 <= t < n,
    ensures
        repeated(unit, n)[t] == unit[0],
    decreases n,
{
    lemma_repeated_len(unit, (n - 1) as nat);
    if t < n - 1 {
        lemma_repeated_char(unit, (n - 1) as nat, t);
    }
}

/// Whether the vertical line of a gate spanning the wires `wires` reaches wire `r` from above.
pub open spec fn line_from_above(wires: Seq<usize>, r: int) -> bool {
    (exists|i: int| 0 <= i < wires.len() && #[trigger] wires[i] < r) && (exists|j: int|
        0 <= j < wires.len() && #[trigger] wires[j] >= r)
}

/// Whether the vertical line of a gate spanning the wires `wires` leaves wire `r` downwards.
pub open spec fn line_to_below(wires: Seq<usize>, r: int) -> bool {
    (exists|i: int| 0 <= i < wires.len() && #[trigger] wires[i] <= r) && (exists|j: int|
        0 <= j < wires.len() && #[trigger] wires[j] > r)
}

/// Whether every character of a line is a space.
pub open spec fn blank(line: Seq<char>) -> bool {
    forall|t: int| 0 <= t < line.len() ==> line[t] == ' '
}

/// How the vertical line that joins a gate with control nodes to its nodes is drawn, in the
/// column whose first such gate stands on wire `p`. On any other wire, the line above the name
/// line starts with `  │  ` when the line comes down from a wire above, and is blank otherwise;
/// the two lines below the name line start with `  │  ` when the line goes on to a wire below,
/// and are blank otherwise. On its own wire, its box is joined upwards (`┷`) exactly when
/// a node lies above it and downwards (`┯`, then `│` on the connection line) exactly when a node
/// lies below it.
pub proof fn law_control_lines_drawn<A, F>(col: Seq<GateView<A, F>>, p: int, r: int)
    requires
        is_first_multi(col, p),
        printable(col),
        0 <= r < col.len(),
        col.len() <= usize::MAX,
    ensures
        ({
            let wires = control_nodes(col[p]).unwrap().push(p as usize);
            let cell = column_cell(col, r);
            &&& r != p && line_from_above(wires, r) ==> cell.0.take(5) == "  │  "@
            &&& r != p && !line_from_above(wires, r) ==> blank(cell.0)
            &&& r != p && line_to_below(wires, r) ==> cell.2.take(5) == "  │  "@ && cell.3.take(5) == "  │  "@
            &&& r != p && !line_to_below(wires, r) ==> blank(cell.2) && blank(cell.3)
            &&& r == p && (exists|i: int| 0 <= i < wires.len() && #[trigger] wires[i] < p) ==> cell.0.take(3) == "┏━┷"@
            &&& r == p && !(exists|i: int| 0 <= i < wires.len() && #[trigger] wires[i] < p) ==> cell.0.take(3) == "┏━━"@
            &&& r == p && (exists|i: int| 0 <= i < wires.len() && #[trigger] wires[i] > p) ==> cell.2.take(3) == "┗━┯"@
                && cell.3[2] == '│'
            &&& r == p && !(exists|i: int| 0 <= i < wires.len() && #[trigger] wires[i] > p) ==> cell.2.take(3) == "┗━━"@
                && cell.3[2] == ' '
        }),
{
    lemma_piece_lengths();
    reveal_strlit("  │  ");
    reveal_strlit(" ");
    reveal_strlit("┏━");
    reveal_strlit("┷");
    reveal_strlit("━");
    reveal_strlit("┗━");
    reveal_strlit("┯");
    reveal_strlit("  ");
    reveal_strlit("│");
    reveal_strlit("┏━┷");
    reveal_strlit("┏━━");
    reveal_strlit("┗━┯");
    reveal_strlit("┗━━");
    let nodes = control_nodes(col[p]).unwrap();
    let wires = nodes.push(p as usize);
    let q = choose|q: int| is_first_multi(col, q);
    super::printer::lemma_first_multi_unique(col, q, p);
    assert(drawn_nodes(col, p) == wires);
    let lo = min_wire(wires);
    let hi = max_wire(wires);
    lemma_min_wire(wires);
    lemma_max_wire(wires);
    let len = byte_len(gate_name(col[p]));
    assert(len >= 1);
    let k = (len - 1) as nat;
    let cell = column_cell(col, r);
    assert(cell == multi_cell(col[p], p, r, lo, hi, wires));
    assert(wires[wires.len() - 1] == p as usize);
    let il = choose|i: int| 0 <= i < wires.len() && wires[i] == lo;
    let ih = choose|i: int| 0 <= i < wires.len() && wires[i] == hi;
    assert(line_from_above(wires, r) <==> lo < r <= hi) by {
        if lo < r <= hi {
            assert(wires[il] < r);
            assert(wires[ih] >= r);
        }
        if line_from_above(wires, r) {
            let i = choose|i: int| 0 <= i < wires.len() && #[trigger] wires[i] < r;
            let j = choose|j: int| 0 <= j < wires.len() && #[trigger] wires[j] >= r;
            assert(lo <= wires[i]);
            assert(wires[j] <= hi);
        }
    }
    assert(line_to_below(wires, r) <==> lo <= r < hi) by {
        if lo <= r < hi {
            assert(wires[il] <= r);
            assert(wires[ih] > r);
        }
        if line_to_below(wires, r) {
            let i = choose|i: int| 0 <= i < wires.len() && #[trigger] wires[i] <= r;
            let j = choose|j: int| 0 <= j < wires.len() && #[trigger] wires[j] > r;
            assert(lo <= wires[i]);
            assert(wires[j] <= hi);
        }
    }
    assert((exists|i: int| 0 <= i < wires.len() && #[trigger] wires[i] < p) <==> lo < p) by {
        if lo < p {
            assert(wires[il] < p);
        }
    }
    assert((exists|i: int| 0 <= i < wires.len() && #[trigger] wires[i] > p) <==> p < hi) by {
        if p < hi {
            assert(wires[ih] > p);
        }
    }
    assert(lo <= p <= hi) by {
        assert(wires[wires.len() - 1] == p);
    }
    assert forall|m: nat, t: int| 0 <= t < m implies #[trigger] spaces(m)[t] == ' ' by {
        lemma_repeated_char(" "@, m, t);
    }
    lemma_run_lengths(len + 4);
    lemma_run_lengths(len + 3);
    lemma_run_lengths(len + 1);
    lemma_run_lengths(k);
    assert(("  │  "@ + spaces(k)).take(5) =~= "  │  "@);
    assert forall|t: int| 0 <= t < len + 4 implies #[trigger] (" "@ + spaces(len + 3))[t] == ' ' by {
        if t > 0 {
            assert((" "@ + spaces(len + 3))[t] == spaces(len + 3)[t - 1]);
        }
    }
    assert(("┏━"@ + "┷"@ + heavy(k) + "━┓"@).take(3) =~= "┏━┷"@);
    assert(("┏━"@ + "━"@ + heavy(k) + "━┓"@).take(3) =~= "┏━━"@);
    assert(("┗━"@ + "┯"@ + heavy(k) + "━┛"@).take(3) =~= "┗━┯"@);
    assert(("┗━"@ + "━"@ + heavy(k) + "━┛"@).take(3) =~= "┗━━"@);
    assert(("  "@ + "│"@ + spaces(len + 1))[2] == '│');
    assert(("  "@ + " "@ + spaces(len + 1))[2] == ' ');
}

} // verus!
