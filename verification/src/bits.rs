//! Bit-sequence helpers shared by the block code and the modems: padding a
//! bitstream to a whole number of blocks, and counting bit errors between a
//! sent and a received stream.

use vstd::prelude::*;

verus! {

/// `bits` extended with `false` up to the next multiple of `n`.
pub open spec fn padded(bits: Seq<bool>, n: nat) -> Seq<bool>
    recommends
        n > 0,
{
    if bits.len() % n == 0 {
        bits
    } else {
        bits + Seq::new((n - bits.len() % n) as nat, |i: int| false)
    }
}

/// Law: padding keeps the input bits as a prefix, adds fewer than `n`
/// bits, all `false`, and lands on a multiple of `n`.
pub proof fn lemma_padded_shape(bits: Seq<bool>, n: nat)
    requires
        n > 0,
    ensures
        padded(bits, n).len() % n == 0,
        bits.len() <= padded(bits, n).len() < bits.len() + n,
        padded(bits, n).take(bits.len() as int) == bits,
        forall|i: int|
            bits.len() <= i < padded(bits, n).len() ==> #[trigger] padded(bits, n)[i] == false,
{
    let p = padded(bits, n);
    if bits.len() % n != 0 {
        let r = bits.len() % n;
        vstd::arithmetic::div_mod::lemma_fundamental_div_mod(bits.len() as int, n as int);
        let q = bits.len() / n;
        assert(p.len() == (q + 1) * n) by (nonlinear_arith)
            requires
                p.len() == bits.len() + (n - r),
                bits.len() == n * q + r,
        ;
        vstd::arithmetic::div_mod::lemma_mod_multiples_basic((q + 1) as int, n as int);
    }
    assert(p.take(bits.len() as int) =~= bits);
}

/// Pad `bits` with `false` up to the next multiple of `n` bits.
pub fn pad_to_multiple(bits: &[bool], n: usize) -> (v: Vec<bool>)
    requires
        n > 0,
        bits.len() + n <= usize::MAX,
    ensures
        v@ == padded(bits@, n as nat),
{
    let mut v: Vec<bool> = Vec::new();
    let mut i: usize = 0;
    while i < bits.len()
        invariant
            i <= bits.len(),
            v@ == bits@.take(i as int),
        decreases bits.len() - i,
    {
        v.push(bits[i]);
        i = i + 1;
        assert(v@ =~= bits@.take(i as int));
    }
    assert(bits@.take(bits.len() as int) =~= bits@);
    let rem = v.len() % n;
    if rem != 0 {
        let extra = n - rem;
        let mut k: usize = 0;
        while k < extra
            invariant
                k <= extra,
                extra == n - rem,
                rem == bits@.len() % (n as nat),
                v@ == bits@ + Seq::new(k as nat, |j: int| false),
            decreases extra - k,
        {
            v.push(false);
            k = k + 1;
            assert(v@ =~= bits@ + Seq::new(k as nat, |j: int| false));
        }
    }
    v
}

/// The number of positions below `n` at which `a` and `b` differ.
pub open spec fn mismatches(a: Seq<bool>, b: Seq<bool>, n: nat) -> nat
    decreases n,
{
    if n == 0 {
        0
    } else {
        mismatches(a, b, (n - 1) as nat) + if a[n - 1] != b[n - 1] {
            1nat
        } else {
            0nat
        }
    }
}

/// Law: a stream compared with itself has no mismatches.
pub proof fn lemma_no_mismatches_with_self(a: Seq<bool>, n: nat)
    ensures
        mismatches(a, a, n) == 0,
    decreases n,
{
    if n > 0 {
        lemma_no_mismatches_with_self(a, (n - 1) as nat);
    }
}

/// Law: the mismatch count never exceeds the number of positions compared.
pub proof fn lemma_mismatches_bounded(a: Seq<bool>, b: Seq<bool>, n: nat)
    ensures
        mismatches(a, b, n) <= n,
    decreases n,
{
    if n > 0 {
        lemma_mismatches_bounded(a, b, (n - 1) as nat);
    }
}

/// Law: two streams that differ at every position below `n` have `n`
/// mismatches there.
pub proof fn lemma_all_positions_mismatch(a: Seq<bool>, b: Seq<bool>, n: nat)
    requires
        n <= a.len(),
        n <= b.len(),
        forall|i: int| 0 <= i < n ==> #[trigger] a[i] != b[i],
    ensures
        mismatches(a, b, n) == n,
    decreases n,
{
    if n > 0 {
        lemma_all_positions_mismatch(a, b, (n - 1) as nat);
    }
}

/// Law: flipping the bit at any one position below `n` gives exactly one
/// mismatch against the original stream.
pub proof fn lemma_one_flip_one_mismatch(a: Seq<bool>, i: int, n: nat)
    requires
        0 <= i < n <= a.len(),
    ensures
        mismatches(a, a.update(i, !a[i]), n) == 1,
    decreases n,
{
    let b = a.update(i, !a[i]);
    if i == n - 1 {
        lemma_prefix_no_mismatches(a, b, (n - 1) as nat);
    } else {
        lemma_one_flip_one_mismatch(a, i, (n - 1) as nat);
    }
}

proof fn lemma_prefix_no_mismatches(a: Seq<bool>, b: Seq<bool>, n: nat)
    requires
        n <= a.len(),
        n <= b.len(),
        forall|i: int| 0 <= i < n ==> #[trigger] a[i] == b[i],
    ensures
        mismatches(a, b, n) == 0,
    decreases n,
{
    if n > 0 {
        lemma_prefix_no_mismatches(a, b, (n - 1) as nat);
    }
}

/// Count the positions at which `a` and `b` disagree, over the length of the
/// shorter of the two (trailing padding from block codes and modems is
/// ignored). Returns `(errors, compared)`; the bit error rate is their ratio,
/// and is 0 when nothing was compared.
pub fn bit_error_count(a: &[bool], b: &[bool]) -> (r: (usize, usize))
    ensures
        r.1 == (if a.len() <= b.len() {
            a.len()
        } else {
            b.len()
        }),
        r.0 == mismatches(a@, b@, r.1 as nat),
        r.0 <= r.1,
{
    let n: usize = if a.len() <= b.len() {
        a.len()
    } else {
        b.len()
    };
    let mut errors: usize = 0;
    let mut i: usize = 0;
    while i < n
        invariant
            i <= n,
            n <= a.len(),
            n <= b.len(),
            errors == mismatches(a@, b@, i as nat),
            errors <= i,
        decreases n - i,
    {
        if a[i] != b[i] {
            errors = errors + 1;
        }
        i = i + 1;
    }
    (errors, n)
}

} // verus!
