//! How the gates of a circuit are laid out in columns, and what every column must satisfy.

use vstd::prelude::*;
use vstd::arithmetic::div_mod::{lemma_mod_add_multiples_vanish, lemma_small_mod};
use vstd::utf8::is_ascii_chars;

use crate::gate::{control_nodes, is_single, Gate, GateView};

verus! {

/// The models of a sequence of gates.
pub open spec fn gates_view<A, F>(gates: Seq<Gate<A, F>>) -> Seq<GateView<A, F>> {
    gates.map_values(|g: Gate<A, F>| g@)
}

/// The models of gates with one more gate pushed.
pub proof fn lemma_gates_view_push<A, F>(gates: Seq<Gate<A, F>>, g: Gate<A, F>)
    ensures
        gates_view(gates.push(g)) == gates_view(gates).push(g@),
{
    let a = gates_view(gates.push(g));
    let b = gates_view(gates).push(g@);
    assert forall|i: int| 0 <= i < a.len() implies a[i] == b[i] by {
        if i < gates.len() {
            assert(gates.push(g)[i] == gates[i]);
        }
    }
    assert(a =~= b);
}

/// The models of gates with one gate replaced.
pub proof fn lemma_gates_view_update<A, F>(gates: Seq<Gate<A, F>>, k: int, g: Gate<A, F>)
    requires
        0 <= k < gates.len(),
    ensures
        gates_view(gates.update(k, g)) == gates_view(gates).update(k, g@),
{
    assert(gates_view(gates.update(k, g)) =~= gates_view(gates).update(k, g@));
}

/// The models of two sequences of gates joined.
pub proof fn lemma_gates_view_add<A, F>(a: Seq<Gate<A, F>>, b: Seq<Gate<A, F>>)
    ensures
        gates_view(a + b) == gates_view(a) + gates_view(b),
{
    let l = gates_view(a + b);
    let r = gates_view(a) + gates_view(b);
    assert forall|i: int| 0 <= i < l.len() implies l[i] == r[i] by {
        if i < a.len() {
            assert((a + b)[i] == a[i]);
        } else {
            assert((a + b)[i] == b[i - a.len()]);
        }
    }
    assert(l =~= r);
}

/// The number of gates of a column that are not the identity.
pub open spec fn non_identity_count<A, F>(col: Seq<GateView<A, F>>) -> nat
    decreases col.len(),
{
    if col.len() == 0 {
        0
    } else {
        non_identity_count(col.drop_last()) + if col.last() is Id {
            0nat
        } else {
            1nat
        }
    }
}

/// Whether a gate is a custom gate whose name is not ASCII.
pub open spec fn has_non_ascii_name<A, F>(g: GateView<A, F>) -> bool {
    match g {
        GateView::Custom(_, _, name) => !is_ascii_chars(name),
        _ => false,
    }
}

/// Whether the name of the custom gate at position `k` of a column is inspected when the column
/// is added: names are inspected up to the second gate that is not the identity.
pub open spec fn name_inspected<A, F>(col: Seq<GateView<A, F>>, k: int) -> bool {
    non_identity_count(col.take(k)) <= 1
}

/// Whether adding the column is refused because of the name of a custom gate.
pub open spec fn refused_name<A, F>(col: Seq<GateView<A, F>>) -> bool {
    exists|k: int| 0 <= k < col.len() && name_inspected(col, k) && #[trigger] has_non_ascii_name(col[k])
}

/// Whether the control nodes of a gate at position `pos` of a column of `n` wires are distinct,
/// on the circuit and apart from the wire that carries it.
pub open spec fn nodes_valid<A, F>(g: GateView<A, F>, pos: int, n: nat) -> bool {
    match control_nodes(g) {
        None => true,
        Some(nodes) => {
            &&& nodes.no_duplicates()
            &&& forall|i: int| 0 <= i < nodes.len() ==> nodes[i] < n
            &&& forall|i: int| 0 <= i < nodes.len() ==> nodes[i] != pos
        },
    }
}

/// Whether every gate of a column has valid control nodes.
pub open spec fn column_valid<A, F>(col: Seq<GateView<A, F>>, n: nat) -> bool {
    forall|p: int| 0 <= p < col.len() ==> #[trigger] nodes_valid(col[p], p, n)
}

/// A column of `n` wires holding `g` on wire `k` and the identity elsewhere.
pub open spec fn isolated_column<A, F>(n: nat, k: int, g: GateView<A, F>) -> Seq<GateView<A, F>> {
    Seq::new(n, |j: int| if j == k { g } else { GateView::Id })
}

/// The columns that isolate, in order of their wires, the gates with control nodes among the
/// first `k` gates of a column.
pub open spec fn isolated_columns<A, F>(col: Seq<GateView<A, F>>, k: nat) -> Seq<GateView<A, F>>
    decreases k,
{
    if k == 0 {
        Seq::empty()
    } else {
        let j = (k - 1) as int;
        isolated_columns(col, (k - 1) as nat) + if is_single(col[j]) {
            Seq::<GateView<A, F>>::empty()
        } else {
            isolated_column(col.len(), j, col[j])
        }
    }
}

/// The column with its gates that have control nodes replaced by the identity.
pub open spec fn stripped<A, F>(col: Seq<GateView<A, F>>) -> Seq<GateView<A, F>> {
    Seq::new(col.len(), |j: int| if is_single(col[j]) { col[j] } else { GateView::Id })
}

/// The columns that a column of gates becomes in the circuit: a column with at most one gate
/// that is not the identity stays as it is; otherwise each gate with control nodes is moved to a
/// column of its own, after the column of the remaining gates.
pub open spec fn pushed_layout<A, F>(col: Seq<GateView<A, F>>) -> Seq<GateView<A, F>> {
    if non_identity_count(col) <= 1 {
        col
    } else {
        stripped(col) + isolated_columns(col, col.len())
    }
}

/// Whether a column of `n` wires is valid and any gate with control nodes stands alone in it.
pub open spec fn column_well_formed<A, F>(col: Seq<GateView<A, F>>, n: nat) -> bool {
    &&& col.len() == n
    &&& column_valid(col, n)
    &&& forall|p: int, q: int|
        0 <= p < n && 0 <= q < n && p != q && !is_single(#[trigger] col[p]) ==> #[trigger] col[q] is Id
}

/// Whether a sequence of gates is made of well-formed columns of `n` wires.
pub open spec fn layout_well_formed<A, F>(gates: Seq<GateView<A, F>>, n: nat) -> bool
    decreases gates.len(),
{
    if gates.len() == 0 {
        true
    } else if n == 0 || gates.len() < n {
        false
    } else {
        column_well_formed(gates.take(n as int), n) && layout_well_formed(gates.skip(n as int), n)
    }
}

/// The number of gates that are not the identity only grows along a column.
pub proof fn lemma_count_monotone<A, F>(col: Seq<GateView<A, F>>, j: int, k: int)
    requires
        0 <= j <= k <= col.len(),
    ensures
        non_identity_count(col.take(j)) <= non_identity_count(col.take(k)),
    decreases k - j,
{
    if j < k {
        lemma_count_monotone(col, j, k - 1);
        assert(col.take(k).drop_last() =~= col.take(k - 1));
    }
}

/// Counting the gates that are not the identity one position further.
pub proof fn lemma_count_step<A, F>(col: Seq<GateView<A, F>>, k: int)
    requires
        0 <= k < col.len(),
    ensures
        non_identity_count(col.take(k + 1)) == non_identity_count(col.take(k)) + if col[k] is Id {
            0nat
        } else {
            1nat
        },
{
    assert(col.take(k + 1).drop_last() =~= col.take(k));
}

/// A column with at most one gate that is not the identity has the identity everywhere else.
pub proof fn lemma_single_non_identity<A, F>(col: Seq<GateView<A, F>>, p: int, q: int)
    requires
        non_identity_count(col) <= 1,
        0 <= p < col.len(),
        0 <= q < col.len(),
        p != q,
        !(col[p] is Id),
    ensures
        col[q] is Id,
    decreases col.len(),
{
    let last = col.len() - 1;
    if p == last {
        if !(col[q] is Id) {
            lemma_count_positive(col.drop_last(), q);
        }
    } else if q == last {
        lemma_count_positive(col.drop_last(), p);
    } else {
        lemma_single_non_identity(col.drop_last(), p, q);
    }
}

/// A column holding a gate that is not the identity counts at least one such gate.
pub proof fn lemma_count_positive<A, F>(col: Seq<GateView<A, F>>, p: int)
    requires
        0 <= p < col.len(),
        !(col[p] is Id),
    ensures
        non_identity_count(col) >= 1,
    decreases col.len(),
{
    if p < col.len() - 1 {
        lemma_count_positive(col.drop_last(), p);
    }
}

/// Two sequences of well-formed columns joined are a sequence of well-formed columns.
pub proof fn lemma_layout_append<A, F>(a: Seq<GateView<A, F>>, b: Seq<GateView<A, F>>, n: nat)
    requires
        layout_well_formed(a, n),
        layout_well_formed(b, n),
    ensures
        layout_well_formed(a + b, n),
    decreases a.len(),
{
    if a.len() == 0 {
        assert(a + b =~= b);
    } else {
        lemma_layout_append(a.skip(n as int), b, n);
        assert((a + b).take(n as int) =~= a.take(n as int));
        assert((a + b).skip(n as int) =~= a.skip(n as int) + b);
    }
}

/// A single well-formed column is a well-formed layout.
pub proof fn lemma_layout_single_column<A, F>(col: Seq<GateView<A, F>>, n: nat)
    requires
        n > 0,
        column_well_formed(col, n),
    ensures
        layout_well_formed(col, n),
{
    assert(col.take(n as int) =~= col);
    assert(col.skip(n as int) =~= Seq::<GateView<A, F>>::empty());
    assert(layout_well_formed(col.skip(n as int), n));
}

/// The isolating columns of the first `k` gates of a valid column are well-formed.
pub proof fn lemma_isolated_columns_well_formed<A, F>(col: Seq<GateView<A, F>>, k: nat)
    requires
        col.len() > 0,
        k <= col.len(),
        column_valid(col, col.len()),
    ensures
        layout_well_formed(isolated_columns(col, k), col.len()),
    decreases k,
{
    let n = col.len();
    if k > 0 {
        let j = (k - 1) as int;
        lemma_isolated_columns_well_formed(col, (k - 1) as nat);
        if is_single(col[j]) {
            assert(isolated_columns(col, k) =~= isolated_columns(col, (k - 1) as nat));
        } else {
            let c = isolated_column(n, j, col[j]);
            assert(nodes_valid(col[j], j, n));
            assert forall|p: int| 0 <= p < c.len() implies #[trigger] nodes_valid(c[p], p, n) by {
                if p == j {
                    assert(c[p] == col[j]);
                }
            }
            lemma_layout_single_column(c, n);
            lemma_layout_append(isolated_columns(col, (k - 1) as nat), c, n);
        }
    }
}

/// The columns that a valid column of `n` wires becomes in the circuit are well-formed: every
/// gate with control nodes stands alone in its column, with its nodes on the circuit, distinct
/// and apart from its own wire.
pub proof fn law_pushed_layout_well_formed<A, F>(col: Seq<GateView<A, F>>, n: nat)
    requires
        n > 0,
        col.len() == n,
        column_valid(col, n),
    ensures
        layout_well_formed(pushed_layout(col), n),
{
    if non_identity_count(col) <= 1 {
        assert forall|p: int, q: int|
            0 <= p < n && 0 <= q < n && p != q && !is_single(#[trigger] col[p]) implies #[trigger] col[q] is Id by {
            lemma_single_non_identity(col, p, q);
        }
        lemma_layout_single_column(col, n);
    } else {
        let s = stripped(col);
        assert forall|p: int| 0 <= p < s.len() implies #[trigger] nodes_valid(s[p], p, n) by {
            assert(nodes_valid(col[p], p, n));
        }
        lemma_layout_single_column(s, n);
        lemma_isolated_columns_well_formed(col, n);
        lemma_layout_append(s, isolated_columns(col, n), n);
    }
}

/// A layout of well-formed columns of `n` wires holds a whole number of columns.
pub proof fn law_layout_whole_columns<A, F>(gates: Seq<GateView<A, F>>, n: nat)
    requires
        layout_well_formed(gates, n),
    ensures
        n > 0 ==> gates.len() % n == 0,
    decreases gates.len(),
{
    if gates.len() > 0 {
        let rest = gates.skip(n as int);
        law_layout_whole_columns(rest, n);
        assert(gates.len() == n + rest.len());
        lemma_mod_add_multiples_vanish(rest.len() as int, n as int);
        assert(gates.len() % n == 0);
    } else if n > 0 {
        lemma_small_mod(0, n);
    }
}

/// The number of gates of a column that have control nodes.
pub open spec fn controlled_count<A, F>(col: Seq<GateView<A, F>>) -> nat
    decreases col.len(),
{
    if col.len() == 0 {
        0
    } else {
        controlled_count(col.drop_last()) + if is_single(col.last()) {
            0nat
        } else {
            1nat
        }
    }
}

/// The columns that isolate the gates with control nodes among the first `k` of a column of `n`
/// wires: one column of `n` gates for each of them; any gate that is not the identity in them is
/// one of those gates, standing on its own wire; each of them appears; and they come in
/// increasing order of their wires.
proof fn lemma_isolated_columns_order<A, F>(col: Seq<GateView<A, F>>, k: nat)
    requires
        col.len() > 0,
        k <= col.len(),
    ensures
        ({
            let v = isolated_columns(col, k);
            let n = col.len() as int;
            &&& v.len() == n * controlled_count(col.take(k as int))
            &&& forall|i: int|
                0 <= i < v.len() && !(#[trigger] v[i] is Id) ==> v[i] == col[i % n] && !is_single(col[i % n])
                    && i % n < k
            &&& forall|q: int|
                0 <= q < k && !is_single(#[trigger] col[q]) ==> exists|i: int|
                    0 <= i < v.len() && i % n == q && #[trigger] v[i] == col[q]
            &&& forall|i1: int, i2: int|
                0 <= i1 < i2 < v.len() && !(#[trigger] v[i1] is Id) && !(#[trigger] v[i2] is Id) ==> i1 % n
                    < i2 % n
        }),
    decreases k,
{
    let n = col.len() as int;
    if k == 0 {
        assert(col.take(0).len() == 0);
    } else {
        let j = (k - 1) as int;
        lemma_isolated_columns_order(col, (k - 1) as nat);
        let prev = isolated_columns(col, (k - 1) as nat);
        let v = isolated_columns(col, k);
        let c = controlled_count(col.take(j));
        assert(col.take(k as int).drop_last() =~= col.take(j));
        assert(col.take(k as int).last() == col[j]);
        if is_single(col[j]) {
            assert(v =~= prev);
        } else {
            let added = isolated_column(col.len(), j, col[j]);
            assert(v == prev + added);
            assert(n * (c + 1) == n * c + n) by (nonlinear_arith);
            assert forall|t: int| 0 <= t < n implies (#[trigger] (prev.len() + t)) % n == t by {
                vstd::arithmetic::div_mod::lemma_mod_multiples_vanish(c as int, t, n);
                vstd::arithmetic::div_mod::lemma_small_mod(t as nat, n as nat);
            }
            assert forall|i: int| 0 <= i < v.len() && !(#[trigger] v[i] is Id) implies v[i] == col[i % n]
                && !is_single(col[i % n]) && i % n < k by {
                if i < prev.len() {
                    assert(v[i] == prev[i]);
                } else {
                    assert(v[i] == added[i - prev.len()]);
                    assert(prev.len() + (i - prev.len()) == i);
                }
            }
            assert forall|q: int| 0 <= q < k && !is_single(#[trigger] col[q]) implies exists|i: int|
                0 <= i < v.len() && i % n == q && #[trigger] v[i] == col[q] by {
                if q < j {
                    let i = choose|i: int| 0 <= i < prev.len() && i % n == q && #[trigger] prev[i] == col[q];
                    assert(v[i] == prev[i]);
                } else {
                    let i = prev.len() + j;
                    assert(v[i] == added[j]);
                    assert(i % n == j);
                }
            }
            assert forall|i1: int, i2: int|
                0 <= i1 < i2 < v.len() && !(#[trigger] v[i1] is Id) && !(#[trigger] v[i2] is Id) implies i1 % n
                < i2 % n by {
                if i2 < prev.len() {
                    assert(v[i1] == prev[i1]);
                    assert(v[i2] == prev[i2]);
                } else if i1 < prev.len() {
                    assert(v[i1] == prev[i1]);
                    assert(v[i2] == added[i2 - prev.len()]);
                    assert(prev.len() + (i2 - prev.len()) == i2);
                } else {
                    assert(v[i1] == added[i1 - prev.len()]);
                    assert(v[i2] == added[i2 - prev.len()]);
                }
            }
        }
    }
}

/// The columns that a column of `n` wires becomes in the circuit. A column with at most one
/// gate that is not the identity is added as it is. Otherwise the column itself comes first,
/// with each of its gates with control nodes replaced by the identity; after it come one column
/// for each gate with control nodes, holding that gate on its own wire and the identity
/// elsewhere, in increasing order of their wires.
pub proof fn law_pushed_layout_order<A, F>(col: Seq<GateView<A, F>>)
    requires
        col.len() > 0,
    ensures
        non_identity_count(col) <= 1 ==> pushed_layout(col) == col,
        non_identity_count(col) >= 2 ==> ({
            let v = pushed_layout(col);
            let n = col.len() as int;
            &&& v.len() == n + n * controlled_count(col)
            &&& forall|j: int|
                0 <= j < n ==> #[trigger] v[j] == if is_single(col[j]) {
                    col[j]
                } else {
                    GateView::Id
                }
            &&& forall|i: int|
                n <= i < v.len() && !(#[trigger] v[i] is Id) ==> v[i] == col[i % n] && !is_single(col[i % n])
            &&& forall|q: int|
                0 <= q < n && !is_single(#[trigger] col[q]) ==> exists|i: int|
                    n <= i < v.len() && i % n == q && #[trigger] v[i] == col[q]
            &&& forall|i1: int, i2: int|
                n <= i1 < i2 < v.len() && !(#[trigger] v[i1] is Id) && !(#[trigger] v[i2] is Id) ==> i1 % n
                    < i2 % n
        }),
{
    if non_identity_count(col) >= 2 {
        let n = col.len() as int;
        lemma_isolated_columns_order(col, col.len());
        assert(col.take(n) =~= col);
        let iso = isolated_columns(col, col.len());
        let v = pushed_layout(col);
        assert(v == stripped(col) + iso);
        assert forall|i: int| n <= i < v.len() implies (#[trigger] v[i]) == iso[i - n] && (i - n) % n == i % n by {
            vstd::arithmetic::div_mod::lemma_mod_sub_multiples_vanish(i, n);
        }
        assert forall|q: int| 0 <= q < n && !is_single(#[trigger] col[q]) implies exists|i: int|
            n <= i < v.len() && i % n == q && #[trigger] v[i] == col[q] by {
            let i = choose|i: int| 0 <= i < iso.len() && i % n == q && #[trigger] iso[i] == col[q];
            assert(v[n + i] == iso[i]);
            vstd::arithmetic::div_mod::lemma_mod_sub_multiples_vanish(n + i, n);
        }
        assert forall|i1: int, i2: int|
            n <= i1 < i2 < v.len() && !(#[trigger] v[i1] is Id) && !(#[trigger] v[i2] is Id) implies i1 % n < i2
            % n by {
            assert(v[i1] == iso[i1 - n]);
            assert(v[i2] == iso[i2 - n]);
            vstd::arithmetic::div_mod::lemma_mod_sub_multiples_vanish(i1, n);
            vstd::arithmetic::div_mod::lemma_mod_sub_multiples_vanish(i2, n);
        }
    }
}

} // verus!
