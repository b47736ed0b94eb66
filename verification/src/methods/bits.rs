//! Bit sequences as the codec writes and reads them: most significant bit
//! first, numbers in two's complement.

use vstd::prelude::*;
use vstd::arithmetic::power2::*;
use vstd::arithmetic::div_mod::*;

verus! {

/// The low `n` bits of `x` in two's complement, most significant first.
pub open spec fn bits_of(x: int, n: nat) -> Seq<bool>
    decreases n,
{
    if n == 0 {
        Seq::empty()
    } else {
        bits_of(x / 2, (n - 1) as nat).push(x % 2 == 1)
    }
}

/// The number that a bit sequence spells, most significant bit first.
pub open spec fn bits_value(bits: Seq<bool>) -> nat
    decreases bits.len(),
{
    if bits.len() == 0 {
        0
    } else {
        2 * bits_value(bits.drop_last()) + if bits.last() { 1nat } else { 0nat }
    }
}

/// `n` zero bits.
pub open spec fn zeros(n: nat) -> Seq<bool> {
    Seq::new(n, |i: int| false)
}

/// Halving commutes with division and remainder by a power of two's double.
pub proof fn lemma_halving(x: int, p: int)
    requires
        p > 0,
    ensures
        x % (2 * p) == 2 * ((x / 2) % p) + x % 2,
        x / (2 * p) == (x / 2) / p,
{
    let q = x / 2;
    let r = x % 2;
    let q2 = q / p;
    let r2 = q % p;
    lemma_fundamental_div_mod(q, p);
    lemma_mod_bound(q, p);
    assert(x == q2 * (2 * p) + (2 * r2 + r)) by (nonlinear_arith)
        requires
            x == 2 * q + r,
            q == p * q2 + r2,
    ;
    lemma_fundamental_div_mod_converse(x, 2 * p, q2, 2 * r2 + r);
}

pub proof fn lemma_bits_of_len(x: int, n: nat)
    ensures
        bits_of(x, n).len() == n,
    decreases n,
{
    if n > 0 {
        lemma_bits_of_len(x / 2, (n - 1) as nat);
    }
}

/// A sequence of `n` bits spells a number below `2^n`.
pub proof fn lemma_bits_value_bound(bits: Seq<bool>)
    ensures
        bits_value(bits) < pow2(bits.len()),
    decreases bits.len(),
{
    if bits.len() == 0 {
        lemma2_to64();
    } else {
        lemma_bits_value_bound(bits.drop_last());
        lemma_pow2_unfold(bits.len());
    }
}

/// Reading back the low `n` bits of `x` gives `x` modulo `2^n`.
pub proof fn lemma_bits_value_of(x: int, n: nat)
    ensures
        bits_value(bits_of(x, n)) == x % (pow2(n) as int),
    decreases n,
{
    if n == 0 {
        lemma2_to64();
    } else {
        let m = (n - 1) as nat;
        lemma_bits_value_of(x / 2, m);
        lemma_bits_of_len(x / 2, m);
        lemma_pow2_unfold(n);
        lemma_pow2_pos(m);
        lemma_halving(x, pow2(m) as int);
        assert(bits_of(x, n).drop_last() =~= bits_of(x / 2, m));
    }
}

/// Writing out the number that a bit sequence spells gives the sequence.
pub proof fn lemma_bits_of_value(bits: Seq<bool>)
    ensures
        bits_of(bits_value(bits) as int, bits.len()) == bits,
    decreases bits.len(),
{
    if bits.len() == 0 {
        assert(bits_of(0, 0) =~= bits);
    } else {
        let v = bits_value(bits) as int;
        lemma_bits_of_value(bits.drop_last());
        assert(v / 2 == bits_value(bits.drop_last()));
        assert((v % 2 == 1) == bits.last());
        assert(bits_of(v, bits.len()) =~= bits);
    }
}

/// The low `n` bits depend only on the number modulo `2^n`.
pub proof fn lemma_bits_of_congruent(x: int, y: int, n: nat)
    requires
        x % (pow2(n) as int) == y % (pow2(n) as int),
    ensures
        bits_of(x, n) == bits_of(y, n),
{
    lemma_bits_value_of(x, n);
    lemma_bits_value_of(y, n);
    lemma_bits_of_len(x, n);
    lemma_bits_of_len(y, n);
    lemma_bits_of_value(bits_of(x, n));
    lemma_bits_of_value(bits_of(y, n));
}

/// The low `m + n` bits are the `m` bits above the low `n`, then the low `n`.
pub proof fn lemma_bits_of_split(x: int, m: nat, n: nat)
    ensures
        bits_of(x, m + n) == bits_of(x / (pow2(n) as int), m) + bits_of(x, n),
    decreases n,
{
    if n == 0 {
        lemma2_to64();
        assert(bits_of(x, m + n) =~= bits_of(x / (pow2(n) as int), m) + bits_of(x, n));
    } else {
        let k = (n - 1) as nat;
        lemma_bits_of_split(x / 2, m, k);
        lemma_pow2_unfold(n);
        lemma_pow2_pos(k);
        lemma_halving(x, pow2(k) as int);
        assert(bits_of(x, m + n) =~= bits_of(x / (pow2(n) as int), m) + bits_of(x, n));
    }
}

} // verus!
