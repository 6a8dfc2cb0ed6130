use vstd::prelude::*;
use vstd::arithmetic::power2::{lemma2_to64, lemma_pow2_adds, lemma_pow2_pos, lemma_pow2_strictly_increases, lemma_pow2_unfold, pow2};
use vstd::bits::{lemma_usize_pow2_no_overflow, lemma_usize_shl_is_mul, lemma_usize_shr_is_div};

use super::product_state::{basis_index, basis_state, label, law_basis_index_bound, ProductState};
use super::qubit::Qubit;
use crate::error::QuantrError;
use crate::text::{decimal, push_decimal};

verus! {

/// The number of binary digits of `x` that are zero below its lowest digit one, and the word
/// size for zero.
pub open spec fn trailing_zero_count(x: nat) -> nat
    decreases x,
{
    if x == 0 {
        usize::BITS as nat
    } else if x % 2 == 1 {
        0
    } else {
        1 + trailing_zero_count(x / 2)
    }
}

/// The amplitudes of the basis state with index `index` among `2^n` states: `one` at that index
/// and `zero` elsewhere.
pub open spec fn basis_amplitudes<C>(n: nat, index: nat, zero: C, one: C) -> Seq<C> {
    Seq::new(pow2(n), |i: int| if i == index { one } else { zero })
}

/// The number of amplitudes of a superposition over product states of `n` qubits, as a machine
/// word counts it: `2^n`, which wraps around to zero for a word-sized number of qubits.
pub open spec fn word_dimension(n: nat) -> nat {
    if n < usize::BITS {
        pow2(n)
    } else {
        0
    }
}

/// The number of trailing zero binary digits of `x` (the word size for zero).
pub fn trailing_zeros(x: usize) -> (res: usize)
    ensures
        res == trailing_zero_count(x as nat),
        res <= usize::BITS,
        x > 0 ==> x as nat % pow2(res as nat) == 0,
        x > 0 ==> (x as nat / pow2(res as nat)) % 2 == 1,
{
    if x == 0 {
        return usize::BITS as usize;
    }
    let mut rest: usize = x;
    let mut count: usize = 0;
    proof {
        lemma2_to64();
    }
    while rest % 2 == 0
        invariant
            rest > 0,
            count < usize::BITS,
            x as nat == rest as nat * pow2(count as nat),
            trailing_zero_count(x as nat) == count + trailing_zero_count(rest as nat),
        decreases rest,
    {
        proof {
            lemma_pow2_unfold((count + 1) as nat);
            assert(rest as nat * pow2(count as nat) == (rest / 2) as nat * pow2((count + 1) as nat)) by (nonlinear_arith)
                requires
                    rest % 2 == 0,
                    pow2((count + 1) as nat) == 2 * pow2(count as nat),
            ;
            if count + 1 >= usize::BITS {
                assert(count + 1 == usize::BITS);
                lemma_pow2_pos((count + 1) as nat);
                lemma2_to64();
                assert(pow2(usize::BITS as nat) > usize::MAX);
                assert(rest / 2 >= 1);
                assert(x as nat >= pow2((count + 1) as nat)) by (nonlinear_arith)
                    requires
                        x as nat == (rest / 2) as nat * pow2((count + 1) as nat),
                        rest / 2 >= 1,
                        pow2((count + 1) as nat) > 0,
                ;
                assert(false);
            }
        }
        rest = rest / 2;
        count = count + 1;
    }
    proof {
        lemma_pow2_pos(count as nat);
        assert(x as nat % pow2(count as nat) == 0 && x as nat / pow2(count as nat) == rest) by (nonlinear_arith)
            requires
                x as nat == rest as nat * pow2(count as nat),
                pow2(count as nat) > 0,
        ;
    }
    count
}

/// A superposition of product states: one amplitude for each state of the computational basis,
/// in increasing order of the states' indices.
///
/// The type `C` of the amplitudes is a parameter; the superposition only arranges them.
#[derive(PartialEq, Debug)]
pub struct SuperPosition<C> {
    amplitudes: Vec<C>,
    product_dim: usize,
}

impl<C> SuperPosition<C> {
    /// The amplitudes, in increasing order of the indices of the basis states.
    pub closed spec fn amps(&self) -> Seq<C> {
        self.amplitudes@
    }

    /// The number of qubits of each product state of the superposition.
    pub closed spec fn dim(&self) -> nat {
        self.product_dim as nat
    }

    /// The number of qubits of the product states fits the word size.
    #[verifier::type_invariant]
    closed spec fn dim_in_range(&self) -> bool {
        self.product_dim <= usize::BITS
    }

    /// Returns the number of qubits that each product state in the superposition is composed
    /// of.
    pub fn get_num_qubits(&self) -> (res: usize)
        ensures
            res == self.dim(),
    {
        self.product_dim
    }

    /// Returns the number of amplitudes, the dimension of the Hilbert space that the
    /// superposition lives in.
    pub fn get_dimension(&self) -> (res: usize)
        ensures
            res == self.amps().len(),
    {
        self.amplitudes.len()
    }

    /// Returns the amplitudes ordered in the computational basis.
    pub fn get_amplitudes(&self) -> (res: &[C])
        ensures
            res@ == self.amps(),
    {
        self.amplitudes.as_slice()
    }

    /// Replaces the amplitudes without any check: neither on their number nor on the
    /// conservation of probability. The number of qubits is left as it is.
    pub fn set_amplitudes_unchecked(&mut self, amplitudes: &[C]) -> (res: &mut SuperPosition<C>)
        where C: Copy,
        ensures
            res.amps() == amplitudes@,
            res.dim() == old(self).dim(),
            *final(self) == *final(res),
    {
        proof {
            use_type_invariant(&*self);
        }
        self.amplitudes = copy_amplitudes(amplitudes);
        self
    }
}

impl<C: Copy> Clone for SuperPosition<C> {
    /// A copy of the superposition: the same amplitudes over product states of as many qubits.
    fn clone(&self) -> (res: Self)
        ensures
            res.amps() == self.amps(),
            res.dim() == self.dim(),
    {
        proof {
            use_type_invariant(self);
        }
        SuperPosition { amplitudes: copy_amplitudes(self.amplitudes.as_slice()), product_dim: self.product_dim }
    }
}

fn copy_amplitudes<C: Copy>(amplitudes: &[C]) -> (res: Vec<C>)
    ensures
        res@ == amplitudes@,
{
    let mut res: Vec<C> = Vec::new();
    let mut i: usize = 0;
    while i < amplitudes.len()
        invariant
            i <= amplitudes@.len(),
            res@ == amplitudes@.take(i as int),
        decreases amplitudes@.len() - i,
    {
        res.push(amplitudes[i]);
        proof {
            assert(res@ =~= amplitudes@.take(i + 1));
        }
        i = i + 1;
    }
    proof {
        assert(res@ =~= amplitudes@);
    }
    res
}

/// The amplitudes of the basis state with index `index` among `2^n` states.
fn basis_vector<C: Copy>(n: usize, index: usize, zero: C, one: C) -> (res: Vec<C>)
    requires
        n < usize::BITS,
        index < pow2(n as nat),
    ensures
        res@ == basis_amplitudes(n as nat, index as nat, zero, one),
{
    proof {
        lemma_usize_pow2_no_overflow(n as nat);
        lemma_usize_shl_is_mul(1, n);
        lemma2_to64();
    }
    let size: usize = 1usize << n;
    let mut res: Vec<C> = Vec::new();
    let mut i: usize = 0;
    while i < size
        invariant
            i <= size,
            size == pow2(n as nat),
            res@ == basis_amplitudes(n as nat, index as nat, zero, one).take(i as int),
        decreases size - i,
    {
        if i == index {
            res.push(one);
        } else {
            res.push(zero);
        }
        proof {
            assert(res@ =~= basis_amplitudes(n as nat, index as nat, zero, one).take(i + 1));
        }
        i = i + 1;
    }
    proof {
        assert(res@ =~= basis_amplitudes(n as nat, index as nat, zero, one));
    }
    res
}

impl<C: Copy> SuperPosition<C> {
    /// Creates the superposition `|0..0>` of product states of `prod_dimension` qubits, with
    /// amplitude `one` on `|0..0>` and `zero` on every other state.
    ///
    /// An error is returned if the number of qubits is zero.
    pub fn zero_state(prod_dimension: usize, zero: C, one: C) -> (res: Result<SuperPosition<C>, QuantrError>)
        requires
            prod_dimension < usize::BITS,
        ensures
            match res {
                Ok(s) => {
                    &&& prod_dimension > 0
                    &&& s.dim() == prod_dimension
                    &&& s.amps() == basis_amplitudes(prod_dimension as nat, 0, zero, one)
                },
                Err(e) => prod_dimension == 0 && e.message@ == "The number of qubits must be non-zero."@,
            },
    {
        if prod_dimension == 0 {
            return Err(QuantrError { message: String::from_str("The number of qubits must be non-zero.") });
        }
        proof {
            lemma_pow2_pos(prod_dimension as nat);
        }
        Ok(SuperPosition { amplitudes: basis_vector(prod_dimension, 0, zero, one), product_dim: prod_dimension })
    }

    /// The superposition made of the single product state `state`: amplitude `one` on it and
    /// `zero` on every other state of as many qubits.
    pub fn from_basis_state(state: &ProductState, zero: C, one: C) -> (res: SuperPosition<C>)
        requires
            state@.len() < usize::BITS,
        ensures
            res.dim() == state@.len(),
            res.amps() == basis_amplitudes(state@.len(), basis_index(state@), zero, one),
    {
        proof {
            law_basis_index_bound(state@);
        }
        let index = state.comp_basis();
        SuperPosition { amplitudes: basis_vector(state.num_qubits(), index, zero, one), product_dim: state.num_qubits() }
    }

    /// Creates a superposition from the amplitudes of the states of the computational basis,
    /// without any check on their number or on the conservation of probability. The number of
    /// qubits is the number of trailing zero binary digits of the number of amplitudes.
    pub fn new_with_amplitudes_unchecked(amplitudes: &[C]) -> (res: SuperPosition<C>)
        ensures
            res.amps() == amplitudes@,
            res.dim() == trailing_zero_count(amplitudes@.len()),
    {
        let product_dim = trailing_zeros(amplitudes.len());
        proof {
            if amplitudes@.len() > 0 {
                lemma_pow2_pos(product_dim as nat);
                if product_dim > usize::BITS {
                    lemma_pow2_strictly_increases(usize::BITS as nat, product_dim as nat);
                    lemma2_to64();
                }
                assert(amplitudes@.len() >= pow2(product_dim as nat)) by (nonlinear_arith)
                    requires
                        amplitudes@.len() % pow2(product_dim as nat) == 0,
                        amplitudes@.len() / pow2(product_dim as nat) >= 1,
                        pow2(product_dim as nat) > 0,
                ;
            }
        }
        SuperPosition { amplitudes: copy_amplitudes(amplitudes), product_dim }
    }

    /// Retrieves the amplitude of the product state with index `pos` in the computational basis,
    /// or `None` if there is no such state.
    pub fn get_amplitude(&self, pos: usize) -> (res: Option<C>)
        ensures
            pos < self.amps().len() ==> res == Some(self.amps()[pos as int]),
            pos >= self.amps().len() ==> res is None,
    {
        if pos < self.amplitudes.len() {
            Some(self.amplitudes[pos])
        } else {
            None
        }
    }

    /// Retrieves the amplitude of a product state.
    ///
    /// An error is returned if the superposition does not have as many amplitudes as there are
    /// product states of that many qubits, counted in a machine word (see [word_dimension]).
    pub fn get_amplitude_from_state(&self, prod_state: ProductState) -> (res: Result<C, QuantrError>)
        requires
            1 <= prod_state@.len() <= usize::BITS,
            prod_state@.len() == usize::BITS ==> self.amps().len() > 0,
        ensures
            match res {
                Ok(a) => {
                    &&& word_dimension(prod_state@.len()) == self.amps().len()
                    &&& a == self.amps()[basis_index(prod_state@) as int]
                },
                Err(e) => {
                    &&& word_dimension(prod_state@.len()) != self.amps().len()
                    &&& e.message@ == "Unable to retreive product state, |\""@ + label(prod_state@)
                        + "\"> with dimension "@ + decimal(prod_state@.len())
                        + ". The superposition is a linear combination of states with different dimension. These dimensions should be equal."@
                },
            },
    {
        let len = prod_state.num_qubits();
        let dimension: usize = if len < usize::BITS as usize {
            proof {
                lemma_usize_pow2_no_overflow(len as nat);
                lemma_usize_shl_is_mul(1, len);
                lemma2_to64();
            }
            1usize << len
        } else {
            0
        };
        if dimension != self.amplitudes.len() {
            let mut message = String::from_str("Unable to retreive product state, |\"");
            message.append(prod_state.to_string().as_str());
            message.append("\"> with dimension ");
            push_decimal(&mut message, len);
            message.append(
                ". The superposition is a linear combination of states with different dimension. These dimensions should be equal.",
            );
            return Err(QuantrError { message });
        }
        proof {
            law_basis_index_bound(prod_state@);
        }
        Ok(self.amplitudes[prod_state.comp_basis()])
    }
}


/// The message of the error for amplitudes that do not conserve probability.
pub open spec fn probability_message() -> Seq<char> {
    "Slice given to set amplitudes in super position does not conserve probability, the absolute square sum of the coefficents must be one."@
}

/// The message of the error for a number of amplitudes that is not a power of two.
pub open spec fn power_of_two_message() -> Seq<char> {
    "The length of the array must be of the form 2**n where n is an integer."@
}

/// A power of two is odd only if it is one.
proof fn lemma_pow2_odd(e: nat)
    requires
        pow2(e) % 2 == 1,
    ensures
        e == 0,
{
    if e > 0 {
        lemma_pow2_unfold(e);
    }
}

/// The number of qubits of a superposition with `length` amplitudes, if `length` is a power of
/// two.
fn dimension_of_length(length: usize) -> (res: Result<usize, QuantrError>)
    requires
        length > 0,
    ensures
        match res {
            Ok(d) => length == pow2(d as nat) && d == trailing_zero_count(length as nat),
            Err(e) => (forall|k: nat| pow2(k) != length) && e.message@ == power_of_two_message(),
        },
{
    let d = trailing_zeros(length);
    proof {
        lemma_pow2_pos(d as nat);
        if d >= usize::BITS {
            lemma2_to64();
            if d > usize::BITS {
                lemma_pow2_strictly_increases(usize::BITS as nat, d as nat);
            }
            assert(length as nat >= pow2(d as nat)) by (nonlinear_arith)
                requires
                    length as nat % pow2(d as nat) == 0,
                    length as nat / pow2(d as nat) >= 1,
                    pow2(d as nat) > 0,
            ;
        }
        lemma_usize_shr_is_div(length, d);
    }
    if length >> d != 1 {
        proof {
            assert forall|k: nat| pow2(k) != length by {
                if pow2(k) == length {
                    if k >= d {
                        lemma_pow2_adds((k - d) as nat, d as nat);
                        lemma_pow2_pos((k - d) as nat);
                        assert(pow2(k) / pow2(d as nat) == pow2((k - d) as nat)) by (nonlinear_arith)
                            requires
                                pow2(k) == pow2((k - d) as nat) * pow2(d as nat),
                                pow2(d as nat) > 0,
                        ;
                        lemma_pow2_odd((k - d) as nat);
                        lemma2_to64();
                    } else {
                        lemma_pow2_strictly_increases(k, d as nat);
                        lemma_pow2_pos(k);
                        assert(pow2(k) % pow2(d as nat) == pow2(k)) by (nonlinear_arith)
                            requires
                                0 < pow2(k) < pow2(d as nat),
                        ;
                    }
                }
            }
        }
        return Err(QuantrError { message: String::from_str("The length of the array must be of the form 2**n where n is an integer.") });
    }
    proof {
        assert(length as nat == pow2(d as nat)) by (nonlinear_arith)
            requires
                length as nat % pow2(d as nat) == 0,
                length as nat / pow2(d as nat) == 1,
                pow2(d as nat) > 0,
        ;
    }
    Ok(d)
}

impl<C: Copy> SuperPosition<C> {
    /// Creates a superposition from the amplitudes of the states of the computational basis,
    /// given whether they conserve probability.
    ///
    /// An error is returned if they do not, or else if their number is not a power of two.
    pub fn from_amplitudes(amplitudes: &[C], conserves_probability: bool) -> (res: Result<SuperPosition<C>, QuantrError>)
        requires
            conserves_probability ==> amplitudes@.len() > 0,
        ensures
            match res {
                Ok(s) => {
                    &&& conserves_probability
                    &&& amplitudes@.len() == pow2(s.dim())
                    &&& s.amps() == amplitudes@
                },
                Err(e) => if !conserves_probability {
                    e.message@ == probability_message()
                } else {
                    &&& forall|k: nat| pow2(k) != amplitudes@.len()
                    &&& e.message@ == power_of_two_message()
                },
            },
    {
        if !conserves_probability {
            return Err(QuantrError { message: String::from_str("Slice given to set amplitudes in super position does not conserve probability, the absolute square sum of the coefficents must be one.") });
        }
        let product_dim = match dimension_of_length(amplitudes.len()) {
            Ok(d) => d,
            Err(e) => {
                return Err(e);
            },
        };
        proof {
            if product_dim > usize::BITS {
                lemma_pow2_strictly_increases(usize::BITS as nat, product_dim as nat);
                lemma2_to64();
            }
        }
        Ok(SuperPosition { amplitudes: copy_amplitudes(amplitudes), product_dim })
    }

    /// Replaces the amplitudes, given whether the new ones conserve probability.
    ///
    /// An error is returned, and the superposition left as it is, if their number differs from
    /// the present one, or else if they do not conserve probability.
    pub fn replace_amplitudes(&mut self, amplitudes: &[C], conserves_probability: bool) -> (res: Result<&mut SuperPosition<C>, QuantrError>)
        ensures
            match res {
                Ok(r) => {
                    &&& amplitudes@.len() == old(self).amps().len()
                    &&& conserves_probability
                    &&& r.amps() == amplitudes@
                    &&& r.dim() == old(self).dim()
                    &&& *final(self) == *final(r)
                },
                Err(e) => {
                    &&& *final(self) == *old(self)
                    &&& if amplitudes@.len() != old(self).amps().len() {
                        e.message@ == "The slice given to set the amplitudes in the computational basis has length "@
                            + decimal(amplitudes@.len()) + ", when it should have length "@ + decimal(old(self).amps().len())
                            + "."@
                    } else {
                        !conserves_probability && e.message@ == probability_message()
                    }
                },
            },
    {
        if amplitudes.len() != self.amplitudes.len() {
            let mut message = String::from_str("The slice given to set the amplitudes in the computational basis has length ");
            push_decimal(&mut message, amplitudes.len());
            message.append(", when it should have length ");
            push_decimal(&mut message, self.amplitudes.len());
            message.append(".");
            return Err(QuantrError { message });
        }
        if !conserves_probability {
            return Err(QuantrError { message: String::from_str("Slice given to set amplitudes in super position does not conserve probability, the absolute square sum of the coefficents must be one.") });
        }
        proof {
            use_type_invariant(&*self);
        }
        self.amplitudes = copy_amplitudes(amplitudes);
        Ok(self)
    }

    /// Sets the superposition back to the state `|0..0>`: amplitude `one` on the first state of
    /// the basis and `zero` on all others.
    pub fn reset_to_zero_state(&mut self, zero: C, one: C)
        requires
            old(self).amps().len() > 0,
        ensures
            final(self).dim() == old(self).dim(),
            final(self).amps() == Seq::new(old(self).amps().len(), |i: int| if i == 0 { one } else { zero }),
    {
        proof {
            use_type_invariant(&*self);
        }
        let n = self.amplitudes.len();
        let mut amplitudes: Vec<C> = Vec::new();
        let mut i: usize = 0;
        while i < n
            invariant
                i <= n,
                amplitudes@ == Seq::new(n as nat, |j: int| if j == 0 { one } else { zero }).take(i as int),
            decreases n - i,
        {
            if i == 0 {
                amplitudes.push(one);
            } else {
                amplitudes.push(zero);
            }
            proof {
                assert(amplitudes@ =~= Seq::new(n as nat, |j: int| if j == 0 { one } else { zero }).take(i + 1));
            }
            i = i + 1;
        }
        proof {
            assert(amplitudes@ =~= Seq::new(n as nat, |j: int| if j == 0 { one } else { zero }));
        }
        self.amplitudes = amplitudes;
    }
}

/// Iterates the product states of a superposition together with their amplitudes, in the
/// order of the computational basis.
///
/// After it has returned `None` it starts over from the first state.
pub struct SuperPositionIterator<'a, C> {
    super_position: &'a SuperPosition<C>,
    index: usize,
}

impl<'a, C: Copy> SuperPositionIterator<'a, C> {
    /// The superposition whose states are iterated.
    pub closed spec fn superposition(&self) -> SuperPosition<C> {
        *self.super_position
    }

    /// The index of the state that the next call returns.
    pub closed spec fn position(&self) -> nat {
        self.index as nat
    }

    /// Returns the next product state and its amplitude, or `None` once every state was
    /// returned, in which case the iterator starts over.
    pub fn next(&mut self) -> (res: Option<(ProductState, C)>)
        ensures
            final(self).superposition() == old(self).superposition(),
            old(self).position() < old(self).superposition().amps().len() ==> {
                &&& res matches Some(pair) && pair.0@ == basis_state(old(self).position(), old(self).superposition().dim())
                    && pair.1 == old(self).superposition().amps()[old(self).position() as int]
                &&& final(self).position() == old(self).position() + 1
            },
            old(self).position() >= old(self).superposition().amps().len() ==> {
                &&& res is None
                &&& final(self).position() == 0
            },
    {
        if self.index < self.super_position.amplitudes.len() {
            proof {
                use_type_invariant(self.super_position);
            }
            let state = ProductState::binary_basis(self.index, self.super_position.product_dim);
            let amplitude = self.super_position.amplitudes[self.index];
            self.index = self.index + 1;
            Some((state, amplitude))
        } else {
            self.index = 0;
            None
        }
    }
}

impl<C: Copy> SuperPosition<C> {
    /// An iterator over the product states of the superposition and their amplitudes.
    pub fn into_iter<'a>(&'a self) -> (res: SuperPositionIterator<'a, C>)
        ensures
            res.superposition() == *self,
            res.position() == 0,
    {
        SuperPositionIterator { super_position: self, index: 0 }
    }
}


/// The amplitude that a list of product states and amplitudes gives to the state `s`: that of
/// the last pair that holds `s`, or `zero` if none does.
pub open spec fn amplitude_of<C>(states: Seq<(ProductState, C)>, s: Seq<Qubit>, zero: C) -> C
    decreases states.len(),
{
    if states.len() == 0 {
        zero
    } else if states.last().0@ == s {
        states.last().1
    } else {
        amplitude_of(states.drop_last(), s, zero)
    }
}

/// The `len` amplitudes that a list of product states and amplitudes gives when position `i`
/// stands for the basis state labelled by the lowest `n` binary digits of `i`; for `len` equal
/// to `2^n` these are the amplitudes of the basis states of `n` qubits in the order of the
/// computational basis.
pub open spec fn state_amplitudes<C>(states: Seq<(ProductState, C)>, len: nat, n: nat, zero: C) -> Seq<C> {
    Seq::new(len, |i: int| amplitude_of(states, basis_state(i as nat, n), zero))
}

/// The basis state labelled by the lowest `n` binary digits of `i` is labelled by `i` reduced
/// modulo `2^n`.
proof fn lemma_basis_state_mod(i: nat, n: nat)
    ensures
        basis_state(i, n) == basis_state(i % pow2(n), n),
{
    crate::states::law_index_of_basis_state(i, n);
    crate::states::law_basis_state_of_index(basis_state(i, n));
}

/// The amplitude of a state listed at position `k`, and at no later position, is the one it
/// is listed with.
proof fn lemma_amplitude_of_listed<C>(states: Seq<(ProductState, C)>, zero: C, k: int)
    requires
        0 <= k < states.len(),
        forall|j: int| k < j < states.len() ==> (#[trigger] states[j]).0@ != states[k].0@,
    ensures
        amplitude_of(states, states[k].0@, zero) == states[k].1,
    decreases states.len(),
{
    if k < states.len() - 1 {
        let rest = states.drop_last();
        assert(states.last() == states[states.len() - 1]);
        assert forall|j: int| k < j < rest.len() implies (#[trigger] rest[j]).0@ != rest[k].0@ by {
            assert(rest[j] == states[j]);
        }
        lemma_amplitude_of_listed(rest, zero, k);
    }
}

/// A state that no pair lists has the amplitude `zero`.
proof fn lemma_amplitude_of_unlisted<C>(states: Seq<(ProductState, C)>, s: Seq<Qubit>, zero: C)
    requires
        forall|j: int| 0 <= j < states.len() ==> (#[trigger] states[j]).0@ != s,
    ensures
        amplitude_of(states, s, zero) == zero,
    decreases states.len(),
{
    if states.len() > 0 {
        let rest = states.drop_last();
        assert(states.last() == states[states.len() - 1]);
        assert forall|j: int| 0 <= j < rest.len() implies (#[trigger] rest[j]).0@ != s by {
            assert(rest[j] == states[j]);
        }
        lemma_amplitude_of_unlisted(rest, s, zero);
    }
}

/// Reading back the amplitudes written from a list of product states: a state of `n` qubits
/// listed at position `k`, and at no later position, has the amplitude it is listed with, at its
/// index in the computational basis; a state of `n` qubits that is not listed has `zero`.
pub proof fn law_state_amplitudes_read_back<C>(states: Seq<(ProductState, C)>, n: nat, zero: C, s: Seq<Qubit>)
    requires
        s.len() == n,
    ensures
        basis_index(s) < state_amplitudes(states, pow2(n), n, zero).len(),
        forall|k: int|
            0 <= k < states.len() && (#[trigger] states[k]).0@ == s && (forall|j: int|
                k < j < states.len() ==> states[j].0@ != s) ==> state_amplitudes(states, pow2(n), n, zero)[basis_index(s) as int]
                == states[k].1,
        (forall|j: int| 0 <= j < states.len() ==> (#[trigger] states[j]).0@ != s) ==> state_amplitudes(states, pow2(n), n, zero)[basis_index(
            s,
        ) as int] == zero,
{
    law_basis_index_bound(s);
    crate::states::law_basis_state_of_index(s);
    assert(basis_state(basis_index(s), n) == s);
    assert forall|k: int|
        0 <= k < states.len() && (#[trigger] states[k]).0@ == s && (forall|j: int|
            k < j < states.len() ==> states[j].0@ != s) implies state_amplitudes(states, pow2(n), n, zero)[basis_index(s) as int]
        == states[k].1 by {
        lemma_amplitude_of_listed(states, zero, k);
    }
    if forall|j: int| 0 <= j < states.len() ==> (#[trigger] states[j]).0@ != s {
        lemma_amplitude_of_unlisted(states, s, zero);
    }
}

/// Whether position `k` holds the first state of the list that does not have `n` qubits.
pub open spec fn is_first_mismatch<C>(states: Seq<(ProductState, C)>, n: nat, k: int) -> bool {
    &&& 0 <= k < states.len()
    &&& states[k].0@.len() != n
    &&& forall|j: int| 0 <= j < k ==> (#[trigger] states[j]).0@.len() == n
}

/// The message of the error for an empty list of states.
pub open spec fn empty_states_message() -> Seq<char> {
    "An empty HashMap was given. A superposition must have at least one non-zero state."@
}

/// The message of the error for the state `s` when the states should have `n` qubits.
pub open spec fn state_dimension_message(n: nat, s: Seq<Qubit>) -> Seq<char> {
    "The first state has product dimension of "@ + decimal(n) + ", whilst the state, |"@ + label(s)
        + ">, found as a key in the HashMap has dimension "@ + decimal(s.len()) + "."@
}

/// The message of the error for states whose amplitudes do not conserve probability.
pub open spec fn states_probability_message() -> Seq<char> {
    "The total sum of the absolute square of all amplitudes does not equal 1. That is, the superpositon does not conserve probability."@
}

/// A product state is the basis state of index `i` among `n` qubits exactly when it has `n`
/// qubits and index `i`.
proof fn lemma_state_matches_index(s: Seq<Qubit>, i: nat, n: nat)
    requires
        i < pow2(n),
    ensures
        (s == basis_state(i, n)) <==> (s.len() == n && basis_index(s) == i),
{
    crate::states::law_index_of_basis_state(i, n);
    crate::states::law_basis_state_of_index(s);
    vstd::arithmetic::div_mod::lemma_small_mod(i, pow2(n));
}

/// The position of the first listed state that does not have `n` qubits, if any.
fn find_dimension_mismatch<C>(states: &[(ProductState, C)], n: usize) -> (res: Option<usize>)
    ensures
        match res {
            Some(k) => is_first_mismatch(states@, n as nat, k as int),
            None => forall|k: int| 0 <= k < states@.len() ==> (#[trigger] states@[k]).0@.len() == n,
        },
{
    let mut k: usize = 0;
    while k < states.len()
        invariant
            k <= states@.len(),
            forall|j: int| 0 <= j < k ==> (#[trigger] states@[j]).0@.len() == n,
        decreases states@.len() - k,
    {
        if states[k].0.num_qubits() != n {
            return Some(k);
        }
        k = k + 1;
    }
    None
}

/// The error for the state `state` when the states should have `n` qubits.
fn dimension_error(n: usize, state: &ProductState) -> (res: QuantrError)
    ensures
        res.message@ == state_dimension_message(n as nat, state@),
{
    let mut message = String::from_str("The first state has product dimension of ");
    push_decimal(&mut message, n);
    message.append(", whilst the state, |");
    message.append(state.to_string().as_str());
    message.append(">, found as a key in the HashMap has dimension ");
    push_decimal(&mut message, state.num_qubits());
    message.append(".");
    QuantrError { message }
}

impl<C: Copy> SuperPosition<C> {
    /// Writes into each position `i` of `amplitudes` the amplitude that the list of states
    /// gives to the basis state labelled by the lowest `n` binary digits of `i`, `zero` for the
    /// states not listed; listed states of another number of qubits are ignored.
    fn from_hash_to_array(states: &[(ProductState, C)], amplitudes: &mut Vec<C>, n: usize, zero: C)
        requires
            n <= usize::BITS,
        ensures
            final(amplitudes)@ == state_amplitudes(states@, old(amplitudes)@.len(), n as nat, zero),
    {
        let len = amplitudes.len();
        proof {
            lemma2_to64();
            lemma_pow2_pos(n as nat);
        }
        // The positions below `placed` are those of distinct basis states.
        let placed: usize = if n < usize::BITS as usize {
            proof {
                lemma_usize_pow2_no_overflow(n as nat);
                lemma_usize_shl_is_mul(1, n);
            }
            let full = 1usize << n;
            if full < len {
                full
            } else {
                len
            }
        } else {
            proof {
                if n < usize::BITS {
                } else {
                    assert(pow2(usize::BITS as nat) > usize::MAX);
                }
            }
            len
        };
        let mut i: usize = 0;
        while i < len
            invariant
                i <= len,
                amplitudes@.len() == len,
                forall|j: int| 0 <= j < i ==> amplitudes@[j] == zero,
            decreases len - i,
        {
            amplitudes.set(i, zero);
            i = i + 1;
        }
        let mut k: usize = 0;
        while k < states.len()
            invariant
                k <= states@.len(),
                n <= usize::BITS,
                placed <= len,
                placed <= pow2(n as nat),
                placed < pow2(n as nat) ==> placed == len,
                amplitudes@.len() == len,
                forall|j: int|
                    0 <= j < placed ==> #[trigger] amplitudes@[j] == amplitude_of(
                        states@.take(k as int),
                        basis_state(j as nat, n as nat),
                        zero,
                    ),
                forall|j: int| placed <= j < len ==> #[trigger] amplitudes@[j] == zero,
            decreases states@.len() - k,
        {
            let ghost before = amplitudes@;
            let ghost s = states@[k as int].0@;
            if states[k].0.num_qubits() == n {
                let index = states[k].0.comp_basis();
                proof {
                    law_basis_index_bound(s);
                }
                if index < len {
                    amplitudes.set(index, states[k].1);
                }
            }
            proof {
                assert(states@.take(k + 1).drop_last() =~= states@.take(k as int));
                assert forall|j: int| 0 <= j < placed implies #[trigger] amplitudes@[j] == amplitude_of(
                    states@.take(k + 1),
                    basis_state(j as nat, n as nat),
                    zero,
                ) by {
                    lemma_state_matches_index(s, j as nat, n as nat);
                    assert(before[j] == amplitude_of(states@.take(k as int), basis_state(j as nat, n as nat), zero));
                }
                assert forall|j: int| placed <= j < len implies #[trigger] amplitudes@[j] == zero by {
                    assert(before[j] == zero);
                }
            }
            k = k + 1;
        }
        proof {
            assert(states@.take(states@.len() as int) =~= states@);
        }
        let mut i: usize = placed;
        while i < len
            invariant
                placed <= i <= len,
                0 < placed <= pow2(n as nat) || len == 0,
                placed < pow2(n as nat) ==> placed == len,
                amplitudes@.len() == len,
                forall|j: int|
                    0 <= j < i ==> #[trigger] amplitudes@[j] == amplitude_of(
                        states@,
                        basis_state(j as nat, n as nat),
                        zero,
                    ),
            decreases len - i,
        {
            let source = amplitudes[i % placed];
            proof {
                assert(placed == pow2(n as nat));
                lemma_basis_state_mod(i as nat, n as nat);
            }
            amplitudes.set(i, source);
            i = i + 1;
        }
        proof {
            assert(amplitudes@ =~= state_amplitudes(states@, len as nat, n as nat, zero));
        }
    }

    /// Creates a superposition from product states and their amplitudes, the entries of a map
    /// from states to amplitudes, with amplitude `zero` on the states that are not listed. The
    /// states must all have as many qubits as the first.
    ///
    /// An error is returned if the list is empty, or else for the first state that has another
    /// number of qubits than the first. Whether the amplitudes conserve probability is left to
    /// the caller.
    pub fn from_state_amplitudes(states: &[(ProductState, C)], zero: C) -> (res: Result<SuperPosition<C>, QuantrError>)
        requires
            states@.len() > 0 ==> states@[0].0@.len() < usize::BITS,
        ensures
            match res {
                Ok(s) => {
                    &&& states@.len() > 0
                    &&& s.dim() == states@[0].0@.len()
                    &&& forall|k: int| 0 <= k < states@.len() ==> (#[trigger] states@[k]).0@.len() == s.dim()
                    &&& s.amps() == state_amplitudes(states@, pow2(s.dim()), s.dim(), zero)
                },
                Err(e) => if states@.len() == 0 {
                    e.message@ == empty_states_message()
                } else {
                    exists|k: int|
                        is_first_mismatch(states@, states@[0].0@.len(), k) && e.message@ == state_dimension_message(
                            states@[0].0@.len(),
                            #[trigger] states@[k].0@,
                        )
                },
            },
    {
        if states.len() == 0 {
            return Err(QuantrError { message: String::from_str("An empty HashMap was given. A superposition must have at least one non-zero state.") });
        }
        let product_dim = states[0].0.num_qubits();
        match find_dimension_mismatch(states, product_dim) {
            Some(k) => {
                return Err(dimension_error(product_dim, &states[k].0));
            },
            None => {},
        }
        proof {
            lemma_pow2_pos(product_dim as nat);
        }
        let mut amplitudes = basis_vector(product_dim, 0, zero, zero);
        Self::from_hash_to_array(states, &mut amplitudes, product_dim, zero);
        Ok(SuperPosition { amplitudes, product_dim })
    }

    /// Replaces every amplitude by the one that product states and their amplitudes, the entries
    /// of a map from states to amplitudes, give it, `zero` for the states not listed; given
    /// whether those amplitudes conserve probability. The number of qubits of the states is read
    /// from the number of amplitudes: the number of its trailing zero binary digits.
    ///
    /// An error is returned, and the superposition left as it is, if the list is empty, or else
    /// for the first state that has another number of qubits, or else if the amplitudes do not
    /// conserve probability.
    pub fn replace_state_amplitudes(&mut self, states: &[(ProductState, C)], zero: C, conserves_probability: bool) -> (res: Result<&mut SuperPosition<C>, QuantrError>)
        ensures
            match res {
                Ok(r) => {
                    &&& states@.len() > 0
                    &&& forall|k: int|
                        0 <= k < states@.len() ==> (#[trigger] states@[k]).0@.len() == trailing_zero_count(
                            old(self).amps().len(),
                        )
                    &&& conserves_probability
                    &&& r.dim() == old(self).dim()
                    &&& r.amps() == state_amplitudes(
                        states@,
                        old(self).amps().len(),
                        trailing_zero_count(old(self).amps().len()),
                        zero,
                    )
                    &&& *final(self) == *final(r)
                },
                Err(e) => {
                    &&& *final(self) == *old(self)
                    &&& if states@.len() == 0 {
                        e.message@ == empty_states_message()
                    } else if exists|k: int| is_first_mismatch(states@, trailing_zero_count(old(self).amps().len()), k) {
                        exists|k: int|
                            is_first_mismatch(states@, trailing_zero_count(old(self).amps().len()), k)
                                && e.message@ == state_dimension_message(
                                trailing_zero_count(old(self).amps().len()),
                                #[trigger] states@[k].0@,
                            )
                    } else {
                        !conserves_probability && e.message@ == states_probability_message()
                    }
                },
            },
    {
        if states.len() == 0 {
            return Err(QuantrError { message: String::from_str("An empty HashMap was given. A superposition must have at least one non-zero state.") });
        }
        let product_size = trailing_zeros(self.amplitudes.len());
        match find_dimension_mismatch(states, product_size) {
            Some(k) => {
                return Err(dimension_error(product_size, &states[k].0));
            },
            None => {},
        }
        if !conserves_probability {
            proof {
                assert forall|k: int| !is_first_mismatch(states@, product_size as nat, k) by {
                    if 0 <= k < states@.len() {
                        assert(states@[k].0@.len() == product_size);
                    }
                }
            }
            return Err(QuantrError { message: String::from_str("The total sum of the absolute square of all amplitudes does not equal 1. That is, the superpositon does not conserve probability.") });
        }
        proof {
            use_type_invariant(&*self);
        }
        let mut amplitudes = Vec::new();
        std::mem::swap(&mut amplitudes, &mut self.amplitudes);
        Self::from_hash_to_array(states, &mut amplitudes, product_size, zero);
        self.amplitudes = amplitudes;
        Ok(self)
    }

    /// Replaces every amplitude by the one that product states and their amplitudes give it,
    /// `zero` for the states not listed, without any check. Position `i` stands for the basis
    /// state of `dim` qubits with index `i`; positions from `2^dim` on, which would label a state
    /// again, get `zero`. Listed states of another number of qubits are ignored.
    pub fn set_amplitudes_from_states_unchecked(&mut self, states: &[(ProductState, C)], zero: C) -> (res: &mut SuperPosition<C>)
        ensures
            res.dim() == old(self).dim(),
            res.amps() == Seq::new(
                old(self).amps().len(),
                |i: int|
                    if i < pow2(old(self).dim()) {
                        amplitude_of(states@, basis_state(i as nat, old(self).dim()), zero)
                    } else {
                        zero
                    },
            ),
            *final(self) == *final(res),
    {
        proof {
            use_type_invariant(&*self);
            lemma2_to64();
        }
        let n = self.product_dim;
        let mut amplitudes = Vec::new();
        std::mem::swap(&mut amplitudes, &mut self.amplitudes);
        let len = amplitudes.len();
        Self::from_hash_to_array(states, &mut amplitudes, n, zero);
        let ghost written = amplitudes@;
        if n < usize::BITS as usize {
            proof {
                lemma_usize_pow2_no_overflow(n as nat);
                lemma_usize_shl_is_mul(1, n);
            }
            let full: usize = 1usize << n;
            let mut i: usize = full;
            while i < len
                invariant
                    full == pow2(n as nat),
                    full <= i,
                    amplitudes@.len() == len,
                    forall|j: int| 0 <= j < len && j < full ==> amplitudes@[j] == written[j],
                    forall|j: int| full <= j < i && j < len ==> amplitudes@[j] == zero,
                decreases len - i,
            {
                amplitudes.set(i, zero);
                i = i + 1;
            }
        } else {
            proof {
                assert(pow2(usize::BITS as nat) > usize::MAX);
            }
        }
        proof {
            assert forall|i: int| 0 <= i < len implies amplitudes@[i] == (if i < pow2(n as nat) {
                amplitude_of(states@, basis_state(i as nat, n as nat), zero)
            } else {
                zero
            }) by {
                if i < pow2(n as nat) {
                    assert(written[i] == amplitude_of(states@, basis_state(i as nat, n as nat), zero));
                }
            }
            assert(amplitudes@ =~= Seq::new(
                len as nat,
                |i: int|
                    if i < pow2(n as nat) {
                        amplitude_of(states@, basis_state(i as nat, n as nat), zero)
                    } else {
                        zero
                    },
            ));
        }
        self.amplitudes = amplitudes;
        self
    }
}

} // verus!
