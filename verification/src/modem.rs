//! The bit-level side of the two baseband modems: how many bits each symbol
//! carries, and how QPSK groups a bitstream into the (I, Q) bit pairs of its
//! symbols and flattens hard decisions back into bits. The mapping of a bit
//! to a unit-energy amplitude (`false -> +1`, `true -> -1`, scaled by
//! `1/sqrt(2)` for QPSK) is done on floating-point samples outside this crate.

use vstd::prelude::*;

use crate::bits::{lemma_padded_shape, pad_to_multiple, padded};

verus! {

/// Binary Phase Shift Keying: one bit per symbol on the real axis.
/// `false -> +1`, `true -> -1`.
#[derive(Debug, Clone, Copy, Default)]
pub struct Bpsk;

/// Quadrature Phase Shift Keying: two Gray-coded bits per symbol, unit
/// energy (`I, Q in {+-1/sqrt(2)}`).
#[derive(Debug, Clone, Copy, Default)]
pub struct Qpsk;

impl Bpsk {
    /// Number of bits carried by each symbol.
    pub fn bits_per_symbol(&self) -> (n: usize)
        ensures
            n == 1,
    {
        1
    }
}

/// The (I, Q) bit pairs of a bitstream padded with `false` to even length.
pub open spec fn symbol_pairs(bits: Seq<bool>) -> Seq<(bool, bool)> {
    let p = padded(bits, 2);
    Seq::new(p.len() / 2, |k: int| (p[2 * k], p[2 * k + 1]))
}

/// The bitstream of a sequence of (I, Q) decisions, I first.
pub open spec fn flatten_pairs(pairs: Seq<(bool, bool)>) -> Seq<bool> {
    Seq::new(2 * pairs.len(), |i: int| if i % 2 == 0 { pairs[i / 2].0 } else { pairs[i / 2].1 })
}

impl Qpsk {
    /// Number of bits carried by each symbol.
    pub fn bits_per_symbol(&self) -> (n: usize)
        ensures
            n == 2,
    {
        2
    }

    /// Group `bits` into the (I, Q) bit pairs of successive symbols; an odd
    /// final bit is paired with a `false` pad bit.
    pub fn symbol_bits(&self, bits: &[bool]) -> (pairs: Vec<(bool, bool)>)
        requires
            bits@.len() <= isize::MAX,
        ensures
            pairs@ == symbol_pairs(bits@),
    {
        let p = pad_to_multiple(bits, 2);
        proof {
            lemma_padded_shape(bits@, 2);
            vstd::arithmetic::div_mod::lemma_fundamental_div_mod(p@.len() as int, 2);
        }
        let count: usize = p.len() / 2;
        let mut pairs: Vec<(bool, bool)> = Vec::new();
        let mut k: usize = 0;
        while k < count
            invariant
                k <= count,
                2 * count == p@.len(),
                p@.len() <= usize::MAX,
                p@ == padded(bits@, 2),
                pairs@ =~= symbol_pairs(bits@).take(k as int),
                symbol_pairs(bits@).len() == count,
            decreases count - k,
        {
            pairs.push((p[2 * k], p[2 * k + 1]));
            k = k + 1;
            assert(pairs@ =~= symbol_pairs(bits@).take(k as int));
        }
        assert(symbol_pairs(bits@).take(count as int) =~= symbol_pairs(bits@));
        pairs
    }

    /// Flatten per-symbol hard decisions `(I, Q)` back into a bitstream.
    pub fn decision_bits(&self, decisions: &[(bool, bool)]) -> (bits: Vec<bool>)
        requires
            decisions@.len() <= isize::MAX,
        ensures
            bits@ == flatten_pairs(decisions@),
    {
        let mut bits: Vec<bool> = Vec::new();
        let mut k: usize = 0;
        while k < decisions.len()
            invariant
                k <= decisions@.len(),
                decisions@.len() <= isize::MAX,
                bits@ =~= flatten_pairs(decisions@).take(2 * k),
            decreases decisions@.len() - k,
        {
            let (i, q) = decisions[k];
            bits.push(i);
            bits.push(q);
            k = k + 1;
            assert(bits@ =~= flatten_pairs(decisions@).take(2 * k));
        }
        assert(flatten_pairs(decisions@).take(2 * (decisions@.len() as int)) =~= flatten_pairs(decisions@));
        bits
    }
}

/// Law (QPSK bit round trip): flattening the symbol pairs of a bitstream
/// gives the bitstream back, padded with `false` to even length; so with
/// noise-free decisions the demodulated bits begin with the sent bits.
pub proof fn lemma_qpsk_pairs_round_trip(bits: Seq<bool>)
    ensures
        flatten_pairs(symbol_pairs(bits)) == padded(bits, 2),
        flatten_pairs(symbol_pairs(bits)).take(bits.len() as int) == bits,
        symbol_pairs(bits).len() == (bits.len() + 1) / 2,
{
    let p = padded(bits, 2);
    lemma_padded_shape(bits, 2);
    vstd::arithmetic::div_mod::lemma_fundamental_div_mod(p.len() as int, 2);
    let f = flatten_pairs(symbol_pairs(bits));
    assert forall|i: int| 0 <= i < f.len() implies f[i] == p[i] by {
        if i % 2 == 0 {
            assert(2 * (i / 2) == i);
        } else {
            assert(2 * (i / 2) + 1 == i);
        }
    }
    assert(f =~= p);
}

} // verus!
