use vstd::prelude::*;
use vstd::arithmetic::div_mod::{lemma_div_denominator, lemma_mod_breakdown};
use vstd::arithmetic::power2::{lemma2_to64, lemma_pow2_pos, lemma_pow2_strictly_increases, lemma_pow2_unfold, pow2};
use vstd::bits::lemma_usize_shr_is_div;

use super::qubit::Qubit;
use crate::error::QuantrError;
use crate::text::{decimal, push_decimal};

verus! {

/// The qubit that labels the least significant binary digit of `n`.
pub open spec fn qubit_of_bit(n: nat) -> Qubit {
    if n % 2 == 1 {
        Qubit::One
    } else {
        Qubit::Zero
    }
}

/// The binary digit that a qubit stands for.
pub open spec fn bit_of(q: Qubit) -> nat {
    match q {
        Qubit::Zero => 0,
        Qubit::One => 1,
    }
}

/// The other basis qubit.
pub open spec fn flipped(q: Qubit) -> Qubit {
    match q {
        Qubit::Zero => Qubit::One,
        Qubit::One => Qubit::Zero,
    }
}

/// The index of a product state in the computational basis: its qubits read as a binary
/// number, the left-most qubit being the most significant digit.
pub open spec fn basis_index(s: Seq<Qubit>) -> nat
    decreases s.len(),
{
    if s.len() == 0 {
        0
    } else {
        2 * basis_index(s.drop_last()) + bit_of(s.last())
    }
}

/// The product state of `n` qubits that is labelled by the lowest `n` binary digits of
/// `index`, the most significant digit on the left.
pub open spec fn basis_state(index: nat, n: nat) -> Seq<Qubit> {
    Seq::new(n, |j: int| qubit_of_bit(index / pow2((n - 1 - j) as nat)))
}

/// The qubits of `s` after those at the positions `positions` were overwritten, in order, by
/// the corresponding qubits of `qubits`.
pub open spec fn overwritten(s: Seq<Qubit>, qubits: Seq<Qubit>, positions: Seq<usize>) -> Seq<Qubit>
    decreases positions.len(),
{
    if positions.len() == 0 {
        s
    } else {
        let k = positions.len() - 1;
        overwritten(s, qubits, positions.drop_last()).update(positions[k] as int, qubits[k])
    }
}

/// The qubits of `s` that stand at the positions `positions`, in that order.
pub open spec fn restricted(s: Seq<Qubit>, positions: Seq<usize>) -> Seq<Qubit> {
    Seq::new(positions.len(), |k: int| s[positions[k] as int])
}

/// The text that labels a product state, one `0` or `1` per qubit.
pub open spec fn label(s: Seq<Qubit>) -> Seq<char> {
    Seq::new(s.len(), |i: int| if s[i] == Qubit::One { '1' } else { '0' })
}


/// Splitting off the last qubit of a basis state halves its index.
pub proof fn lemma_basis_state_step(index: nat, n: nat)
    ensures
        basis_state(index, n + 1) == basis_state(index / 2, n).push(qubit_of_bit(index)),
{
    let a = basis_state(index, n + 1);
    let b = basis_state(index / 2, n).push(qubit_of_bit(index));
    assert forall|j: int| 0 <= j < n + 1 implies a[j] == b[j] by {
        if j < n {
            let e = (n - 1 - j) as nat;
            lemma_pow2_unfold(e + 1);
            lemma_pow2_pos(e);
            lemma_div_denominator(index as int, 2, pow2(e) as int);
            assert(((n + 1) - 1 - j) as nat == e + 1);
        } else {
            assert(((n + 1) - 1 - j) as nat == 0);
            lemma2_to64();
        }
    }
    assert(a =~= b);
}

/// The index of a product state is smaller than two to the power of its number of qubits.
pub proof fn law_basis_index_bound(s: Seq<Qubit>)
    ensures
        basis_index(s) < pow2(s.len()),
    decreases s.len(),
{
    if s.len() == 0 {
        lemma2_to64();
    } else {
        law_basis_index_bound(s.drop_last());
        lemma_pow2_unfold(s.len());
    }
}

/// Reading back the index of the basis state labelled by `index` gives `index`, reduced to the
/// digits that the state holds: `comp_basis` undoes `binary_basis`.
pub proof fn law_index_of_basis_state(index: nat, n: nat)
    ensures
        basis_index(basis_state(index, n)) == index % pow2(n),
    decreases n,
{
    if n == 0 {
        lemma2_to64();
        assert(basis_state(index, 0) =~= Seq::<Qubit>::empty());
    } else {
        let m = (n - 1) as nat;
        lemma_basis_state_step(index, m);
        law_index_of_basis_state(index / 2, m);
        assert(basis_state(index, n).drop_last() =~= basis_state(index / 2, m));
        lemma_pow2_pos(m);
        lemma_pow2_unfold(n);
        lemma_mod_breakdown(index as int, 2, pow2(m) as int);
    }
}

/// The basis state labelled by the index of a product state is that product state:
/// `binary_basis` undoes `comp_basis`.
pub proof fn law_basis_state_of_index(s: Seq<Qubit>)
    ensures
        basis_state(basis_index(s), s.len()) == s,
    decreases s.len(),
{
    if s.len() == 0 {
        assert(basis_state(0, 0) =~= s);
    } else {
        let rest = s.drop_last();
        law_basis_state_of_index(rest);
        let v = basis_index(s);
        assert(v / 2 == basis_index(rest));
        assert(qubit_of_bit(v) == s.last());
        lemma_basis_state_step(v, rest.len());
        assert(basis_state(v, s.len()) =~= s);
    }
}

/// Inverting the same binary digit twice restores the product state.
pub proof fn law_invert_twice(s: Seq<Qubit>, k: int)
    requires
        0 <= k < s.len(),
    ensures
        s.update(k, flipped(s[k])).update(k, flipped(s.update(k, flipped(s[k]))[k])) == s,
{
    assert(s.update(k, flipped(s[k])).update(k, flipped(s.update(k, flipped(s[k]))[k])) =~= s);
}

/// Overwriting qubits keeps the number of qubits, and leaves every position that is not
/// written untouched.
pub proof fn law_overwrite_frame(s: Seq<Qubit>, qubits: Seq<Qubit>, positions: Seq<usize>)
    requires
        forall|k: int| 0 <= k < positions.len() ==> positions[k] < s.len(),
    ensures
        overwritten(s, qubits, positions).len() == s.len(),
        forall|j: int|
            0 <= j < s.len() && !positions.contains(j as usize) ==> overwritten(s, qubits, positions)[j]
                == s[j],
    decreases positions.len(),
{
    if positions.len() > 0 {
        let rest = positions.drop_last();
        law_overwrite_frame(s, qubits, rest);
        assert forall|j: int|
            0 <= j < s.len() && !positions.contains(j as usize) implies overwritten(s, qubits, positions)[j]
                == s[j] by {
            if rest.contains(j as usize) {
                let w = choose|w: int| 0 <= w < rest.len() && rest[w] == j as usize;
                assert(positions[w] == j as usize);
            }
            assert(positions[positions.len() - 1] != j as usize);
        }
    }
}

/// The qubits written at distinct positions are the qubits read back from those positions.
pub proof fn law_read_after_write(s: Seq<Qubit>, qubits: Seq<Qubit>, positions: Seq<usize>)
    requires
        qubits.len() == positions.len(),
        positions.no_duplicates(),
        forall|k: int| 0 <= k < positions.len() ==> positions[k] < s.len(),
    ensures
        restricted(overwritten(s, qubits, positions), positions) == qubits,
    decreases positions.len(),
{
    if positions.len() > 0 {
        let n = positions.len() - 1;
        let rest = positions.drop_last();
        let rest_q = qubits.drop_last();
        law_read_after_write(s, rest_q, rest);
        lemma_overwrite_ignores_unused(s, qubits, rest);
        law_overwrite_frame(s, qubits, rest);
        let w = overwritten(s, qubits, positions);
        assert forall|k: int| 0 <= k < positions.len() implies w[positions[k] as int] == qubits[k] by {
            if k < n {
                assert(rest[k] == positions[k]);
                assert(positions[k] != positions[n]);
                assert(restricted(overwritten(s, rest_q, rest), rest)[k] == rest_q[k]);
            }
        }
        assert(restricted(w, positions) =~= qubits);
    }
}

/// Only the first `positions.len()` qubits of `qubits` take part in an overwrite.
pub proof fn lemma_overwrite_ignores_unused(s: Seq<Qubit>, qubits: Seq<Qubit>, positions: Seq<usize>)
    requires
        positions.len() < qubits.len(),
    ensures
        overwritten(s, qubits, positions) == overwritten(s, qubits.subrange(0, positions.len() as int), positions),
    decreases positions.len(),
{
    if positions.len() > 0 {
        let rest = positions.drop_last();
        lemma_overwrite_ignores_unused(s, qubits, rest);
        lemma_overwrite_ignores_unused(s, qubits.subrange(0, positions.len() as int), rest);
        assert(qubits.subrange(0, positions.len() as int).subrange(0, rest.len() as int)
            =~= qubits.subrange(0, rest.len() as int));
    }
}

/// Writing back the qubits read from some positions leaves the product state as it was.
pub proof fn law_write_back(s: Seq<Qubit>, positions: Seq<usize>)
    requires
        forall|k: int| 0 <= k < positions.len() ==> positions[k] < s.len(),
    ensures
        overwritten(s, restricted(s, positions), positions) == s,
    decreases positions.len(),
{
    if positions.len() > 0 {
        let rest = positions.drop_last();
        law_write_back(s, rest);
        assert(restricted(s, positions).subrange(0, rest.len() as int) =~= restricted(s, rest));
        lemma_overwrite_ignores_unused(s, restricted(s, positions), rest);
        assert(overwritten(s, restricted(s, positions), positions) =~= s);
    }
}

/// A product state in the computational basis.
#[derive(Clone, Hash, PartialEq, Eq, Debug)]
pub struct ProductState {
    /// Each element is mapped to bra-ket notation like so: `{a, b, ..., c} -> |ab...c>`.
    pub qubits: Vec<Qubit>,
}

impl View for ProductState {
    type V = Seq<Qubit>;

    open spec fn view(&self) -> Seq<Qubit> {
        self.qubits@
    }
}

fn copy_qubits(product_state: &[Qubit]) -> (res: Vec<Qubit>)
    ensures
        res@ == product_state@,
{
    let mut res: Vec<Qubit> = Vec::new();
    let mut i: usize = 0;
    while i < product_state.len()
        invariant
            i <= product_state@.len(),
            res@ == product_state@.subrange(0, i as int),
        decreases product_state@.len() - i,
    {
        res.push(product_state[i]);
        proof {
            assert(res@ =~= product_state@.subrange(0, i + 1));
        }
        i = i + 1;
    }
    proof {
        assert(res@ =~= product_state@);
    }
    res
}

impl ProductState {
    /// Creates a single product state from a slice of qubits: `&[a, b, ..., c] -> |ab...c>`.
    ///
    /// An error is returned if the slice is empty.
    pub fn new(product_state: &[Qubit]) -> (res: Result<ProductState, QuantrError>)
        ensures
            match res {
                Ok(p) => product_state@.len() > 0 && p@ == product_state@,
                Err(e) => product_state@.len() == 0
                    && e.message@ == "The slice of qubits is empty, it needs to at least have one element."@,
            },
    {
        if product_state.len() == 0 {
            return Err(
                QuantrError {
                    message: String::from_str(
                        "The slice of qubits is empty, it needs to at least have one element.",
                    ),
                },
            );
        }
        Ok(ProductState { qubits: copy_qubits(product_state) })
    }

    /// Returns the qubit in the ith position, counting from the left of the ket notation, or
    /// `None` if the index is out of range.
    pub fn get(&self, i: usize) -> (res: Option<&Qubit>)
        ensures
            i < self@.len() ==> res == Some(&self@[i as int]),
            i >= self@.len() ==> res is None,
    {
        if i < self.qubits.len() {
            Some(&self.qubits[i])
        } else {
            None
        }
    }

    /// Returns a slice of the qubits that forms the product state.
    pub fn get_qubits(&self) -> (res: &[Qubit])
        ensures
            res@ == self@,
    {
        self.qubits.as_slice()
    }

    /// Returns a mutable slice of the qubits that forms the product state, through which the
    /// qubits can be changed in place.
    pub fn get_mut_qubits(&mut self) -> (res: &mut [Qubit])
        ensures
            res@ == old(self)@,
            final(self)@ == final(res)@,
    {
        self.qubits.as_mut_slice()
    }

    /// Creates a product state from a slice of qubits without checking that it is non-empty.
    pub fn new_unchecked(product_state: &[Qubit]) -> (res: ProductState)
        ensures
            res@ == product_state@,
    {
        ProductState { qubits: copy_qubits(product_state) }
    }

    /// Overwrites the qubits at the positions `pos` with the qubits of `qubits`, the k-th
    /// position receiving the k-th qubit.
    pub fn insert_qubits(&mut self, qubits: &[Qubit], pos: &[usize])
        requires
            pos@.len() <= qubits@.len(),
            forall|k: int| 0 <= k < pos@.len() ==> pos@[k] < old(self)@.len(),
        ensures
            final(self)@ == overwritten(old(self)@, qubits@, pos@),
    {
        let mut k: usize = 0;
        while k < pos.len()
            invariant
                k <= pos@.len(),
                pos@.len() <= qubits@.len(),
                forall|j: int| 0 <= j < pos@.len() ==> pos@[j] < old(self)@.len(),
                self@.len() == old(self)@.len(),
                self@ == overwritten(old(self)@, qubits@, pos@.subrange(0, k as int)),
            decreases pos@.len() - k,
        {
            let i = pos[k];
            if self.qubits[i] != qubits[k] {
                let replacement = match self.qubits[i] {
                    Qubit::Zero => Qubit::One,
                    Qubit::One => Qubit::Zero,
                };
                self.qubits.set(i, replacement);
            }
            proof {
                let next = pos@.subrange(0, k + 1);
                assert(next.drop_last() =~= pos@.subrange(0, k as int));
                assert(self@ =~= overwritten(old(self)@, qubits@, next));
            }
            k = k + 1;
        }
        proof {
            assert(pos@.subrange(0, pos@.len() as int) =~= pos@);
        }
    }

    /// Returns the number of qubits that form the product state.
    pub fn num_qubits(&self) -> (res: usize)
        ensures
            res == self@.len(),
    {
        self.qubits.len()
    }

    /// Inverts the binary digit at `place_num`, counting from the far left qubit.
    ///
    /// An error is returned if the position is not strictly less than the number of qubits.
    pub fn invert_digit(&mut self, place_num: usize) -> (res: Result<&mut ProductState, QuantrError>)
        ensures
            match res {
                Ok(r) => {
                    &&& place_num < old(self)@.len()
                    &&& r@ == old(self)@.update(place_num as int, flipped(old(self)@[place_num as int]))
                    &&& *final(self) == *final(r)
                },
                Err(e) => {
                    &&& place_num >= old(self)@.len()
                    &&& *final(self) == *old(self)
                    &&& e.message@ == "The position of the binary digit, "@ + decimal(place_num as nat)
                        + ", is out of bounds. The product dimension is "@ + decimal(old(self)@.len())
                        + ", and so the position must be strictly less."@
                },
            },
    {
        if place_num >= self.num_qubits() {
            let mut message = String::from_str("The position of the binary digit, ");
            push_decimal(&mut message, place_num);
            message.append(", is out of bounds. The product dimension is ");
            push_decimal(&mut message, self.qubits.len());
            message.append(", and so the position must be strictly less.");
            return Err(QuantrError { message });
        }
        let old_qubit: Qubit = self.qubits[place_num];
        let new_qubit = if old_qubit == Qubit::Zero {
            Qubit::One
        } else {
            Qubit::Zero
        };
        self.qubits.set(place_num, new_qubit);
        Ok(self)
    }

    /// Performs the Kronecker product of a product state with a qubit on the right.
    pub fn kronecker_prod(self, other: Qubit) -> (res: ProductState)
        ensures
            res@ == self@.push(other),
    {
        let mut state = self;
        state.qubits.push(other);
        state
    }

    /// Returns the qubit at the given position, which must be in range.
    pub fn get_unchecked(&self, qubit_number: usize) -> (res: Qubit)
        requires
            qubit_number < self@.len(),
        ensures
            res == self@[qubit_number as int],
    {
        self.qubits[qubit_number]
    }

    /// Returns the labelling of the product state as a String, such as `"01"` for |01>.
    pub fn to_string(&self) -> (res: String)
        ensures
            res@ == label(self@),
    {
        let mut res = String::new();
        let mut i: usize = 0;
        while i < self.qubits.len()
            invariant
                i <= self@.len(),
                res@ == label(self@.subrange(0, i as int)),
            decreases self@.len() - i,
        {
            proof {
                reveal_strlit("0");
                reveal_strlit("1");
            }
            match self.qubits[i] {
                Qubit::Zero => res.append("0"),
                Qubit::One => res.append("1"),
            }
            proof {
                assert(res@ =~= label(self@.subrange(0, i + 1)));
            }
            i = i + 1;
        }
        proof {
            assert(self@.subrange(0, self@.len() as int) =~= self@);
        }
        res
    }

    /// Converts the labelling in the computational basis (a binary integer) into base 10.
    pub fn comp_basis(&self) -> (res: usize)
        requires
            self@.len() <= usize::BITS,
        ensures
            res == basis_index(self@),
    {
        let mut acc: usize = 0;
        let mut i: usize = 0;
        proof {
            lemma2_to64();
            lemma_pow2_pos(self@.len());
            if self@.len() < usize::BITS {
                lemma_pow2_strictly_increases(self@.len(), usize::BITS as nat);
            }
        }
        while i < self.qubits.len()
            invariant
                i <= self@.len() <= usize::BITS,
                acc == basis_index(self@.subrange(0, i as int)),
                acc < pow2(i as nat),
                pow2(self@.len()) <= usize::MAX + 1,
            decreases self@.len() - i,
        {
            proof {
                assert(self@.subrange(0, i + 1).drop_last() =~= self@.subrange(0, i as int));
                if i + 1 < self@.len() {
                    lemma_pow2_strictly_increases((i + 1) as nat, self@.len());
                }
                lemma_pow2_unfold((i + 1) as nat);
            }
            let digit: usize = match self.qubits[i] {
                Qubit::Zero => 0,
                Qubit::One => 1,
            };
            acc = 2 * acc + digit;
            i = i + 1;
        }
        proof {
            assert(self@.subrange(0, self@.len() as int) =~= self@);
        }
        acc
    }

    /// The product state of `basis_size` qubits that is labelled in the computational basis by
    /// the binary digits of `index`.
    pub fn binary_basis(index: usize, basis_size: usize) -> (res: ProductState)
        requires
            basis_size <= usize::BITS,
        ensures
            res@ == basis_state(index as nat, basis_size as nat),
    {
        let mut qubits: Vec<Qubit> = Vec::new();
        let mut j: usize = 0;
        while j < basis_size
            invariant
                j <= basis_size <= usize::BITS,
                qubits@ == basis_state(index as nat, basis_size as nat).subrange(0, j as int),
            decreases basis_size - j,
        {
            let shift: usize = basis_size - 1 - j;
            let shifted: usize = index >> shift;
            proof {
                lemma_usize_shr_is_div(index, shift);
                assert(shifted & 1 == shifted % 2) by (bit_vector);
            }
            if shifted & 1 == 1 {
                qubits.push(Qubit::One);
            } else {
                qubits.push(Qubit::Zero);
            }
            proof {
                assert(qubits@ =~= basis_state(index as nat, basis_size as nat).subrange(0, j + 1));
            }
            j = j + 1;
        }
        proof {
            assert(qubits@ =~= basis_state(index as nat, basis_size as nat));
        }
        ProductState { qubits }
    }
}

} // verus!
