//! The precision bound: how many low bits of a double can be cleared while
//! the cleared value stays within a tolerance of the exact one.
//!
//! Doubles are held by their raw bits. Clearing low fraction bits leaves the
//! sign and the exponent alone, and the difference of two doubles of one sign
//! and exponent is exact, so every comparison here is made on integers: a
//! finite double is its significand times a power of two.

use vstd::prelude::*;
use vstd::arithmetic::power2::{
    lemma2_to64, lemma2_to64_rest, lemma_pow2_adds, lemma_pow2_pos, lemma_pow2_strictly_increases,
    pow2,
};
use vstd::bits::lemma_u64_mul_pow2_le_max_iff_max_shr;

verus! {

/// The largest number of low bits that may be cleared: the whole fraction.
pub const MAX_POSITION: u64 = 52;

/// `v` with its low `p` bits cleared.
pub open spec fn truncated(v: u64, p: u64) -> u64 {
    v & (0xffff_ffff_ffff_ffffu64 << p)
}

/// The exponent field of a double.
pub open spec fn exponent(v: u64) -> u64 {
    (v >> 52) & 0x7ff
}

/// The fraction field of a double.
pub open spec fn fraction(v: u64) -> u64 {
    v & 0x000f_ffff_ffff_ffff
}

/// Neither an infinity nor a NaN.
pub open spec fn is_finite(v: u64) -> bool {
    exponent(v) != 0x7ff
}

/// The significand of a finite double: its fraction, with the hidden bit
/// unless the double is subnormal.
pub open spec fn significand(v: u64) -> nat {
    if exponent(v) == 0 {
        fraction(v) as nat
    } else {
        (fraction(v) + 0x0010_0000_0000_0000) as nat
    }
}

/// The power of two that the significand of a finite double is scaled by, in
/// units of `2^-1075`.
pub open spec fn scale(v: u64) -> nat {
    if exponent(v) == 0 {
        1
    } else {
        exponent(v) as nat
    }
}

/// The absolute value of a finite double, in units of `2^-1075`.
pub open spec fn magnitude(v: u64) -> nat {
    significand(v) * pow2(scale(v))
}

/// The two doubles have one sign and one exponent.
pub open spec fn same_binade(a: u64, b: u64) -> bool {
    a >> 52 == b >> 52
}

/// The absolute difference of two finite doubles of one sign and exponent, in
/// units of `2^-1075`.
pub open spec fn distance(a: u64, b: u64) -> nat {
    let d = if significand(a) >= significand(b) {
        significand(a) - significand(b)
    } else {
        significand(b) - significand(a)
    };
    (d as nat) * pow2(scale(a))
}

/// Whether `b` is within `tolerance` of `a`, two doubles of one sign and
/// exponent: `|a - b| < tolerance` as doubles compare. It is false where `a`
/// is not finite, and where the tolerance is negative, zero or a NaN.
pub open spec fn within(a: u64, b: u64, tolerance: u64) -> bool {
    &&& is_finite(a)
    &&& tolerance >> 63 == 0
    &&& if is_finite(tolerance) {
        distance(a, b) < magnitude(tolerance)
    } else {
        fraction(tolerance) == 0
    }
}

/// Whether a tolerance is above zero: not negative, not zero, not a NaN.
pub open spec fn is_positive(tolerance: u64) -> bool {
    &&& tolerance >> 63 == 0
    &&& tolerance != 0
    &&& (is_finite(tolerance) || fraction(tolerance) == 0)
}

/// Whether clearing the low `p` bits of `v` keeps it within `tolerance`.
pub open spec fn admits(v: u64, p: u64, tolerance: u64) -> bool {
    within(v, truncated(v, p), tolerance)
}

/// Clearing no bits changes nothing.
pub proof fn lemma_truncated_zero(v: u64)
    ensures
        truncated(v, 0) == v,
{
    assert(v & (0xffff_ffff_ffff_ffffu64 << 0u64) == v) by (bit_vector);
}

/// A tolerance that is not above zero admits nothing.
pub proof fn lemma_no_tolerance(a: u64, b: u64, tolerance: u64)
    requires
        !is_positive(tolerance),
    ensures
        !within(a, b, tolerance),
{
    if tolerance == 0 {
        assert((0u64 >> 52) & 0x7ff == 0) by (bit_vector);
        assert(0u64 & 0x000f_ffff_ffff_ffff == 0) by (bit_vector);
        assert(magnitude(0) == 0) by (nonlinear_arith)
            requires
                magnitude(0) == 0 * pow2(1),
        ;
    }
}

/// Clearing fraction bits keeps the sign and the exponent, and clearing more
/// of them leaves a smaller fraction.
pub proof fn lemma_truncated_fields(v: u64, p: u64, q: u64)
    requires
        p <= q <= 52,
    ensures
        same_binade(v, truncated(v, p)),
        exponent(truncated(v, p)) == exponent(v),
        fraction(truncated(v, q)) <= fraction(truncated(v, p)) <= fraction(v),
{
    assert(p <= 52 ==> (v & (0xffff_ffff_ffff_ffffu64 << p)) >> 52 == v >> 52) by (bit_vector);
    assert(p <= q && q <= 52 ==> (v & (0xffff_ffff_ffff_ffffu64 << q)) & 0x000f_ffff_ffff_ffff
        <= (v & (0xffff_ffff_ffff_ffffu64 << p)) & 0x000f_ffff_ffff_ffff) by (bit_vector);
    assert((v & (0xffff_ffff_ffff_ffffu64 << p)) & 0x000f_ffff_ffff_ffff <= v
        & 0x000f_ffff_ffff_ffff) by (bit_vector);
}

/// The error of clearing low bits does not shrink as more bits are cleared.
pub proof fn lemma_error_monotone(v: u64, p: u64, q: u64)
    requires
        p <= q <= 52,
    ensures
        distance(v, truncated(v, p)) <= distance(v, truncated(v, q)),
{
    lemma_truncated_fields(v, p, q);
    lemma_truncated_fields(v, q, q);
    let dp = significand(v) - significand(truncated(v, p));
    let dq = significand(v) - significand(truncated(v, q));
    let s = pow2(scale(v));
    assert(0 <= dp <= dq);
    assert(dp * s <= dq * s) by (nonlinear_arith)
        requires
            0 <= dp <= dq,
            0 <= s,
    ;
}

/// A tolerance that admits clearing `q` bits admits clearing fewer.
pub proof fn lemma_admits_monotone(v: u64, p: u64, q: u64, tolerance: u64)
    requires
        p <= q <= 52,
        admits(v, q, tolerance),
    ensures
        admits(v, p, tolerance),
{
    lemma_error_monotone(v, p, q);
}

/// Two scaled numbers compare as they do with the smaller scale taken out.
proof fn lemma_scaled_compare(k: nat, m: nat, sa: nat, st: nat)
    requires
        sa >= st,
    ensures
        (k * pow2(sa) < m * pow2(st)) == (k * pow2((sa - st) as nat) < m),
{
    let pd = pow2((sa - st) as nat);
    let ps = pow2(st);
    lemma_pow2_adds((sa - st) as nat, st);
    lemma_pow2_pos(st);
    let x = k * pd;
    assert(k * (pd * ps) == x * ps) by (nonlinear_arith)
        requires
            x == k * pd,
    ;
    assert((x * ps < m * ps) == (x < m)) by (nonlinear_arith)
        requires
            ps > 0,
    ;
}

/// Clears the low `p` bits of `v`.
pub fn truncate(v: u64, p: u64) -> (r: u64)
    requires
        p <= MAX_POSITION,
    ensures
        r == truncated(v, p),
        p == 0 ==> r == v,
{
    proof {
        lemma_truncated_zero(v);
    }
    v & (0xffff_ffff_ffff_ffffu64 << p)
}

/// Finds, value by value, the coarsest truncation that a tolerance admits.
/// The position found for one value is where the search starts for the next.
pub struct PrecisionBound {
    position: u64,
    precision: u64,
}

impl PrecisionBound {
    #[verifier::type_invariant]
    spec fn inv(self) -> bool {
        self.position <= 52
    }

    /// The number of low bits that the last call cleared.
    pub closed spec fn position(&self) -> u64 {
        self.position
    }

    /// The raw bits of the tolerance.
    pub closed spec fn tolerance(&self) -> u64 {
        self.precision
    }

    /// A bound with the tolerance whose raw bits are `precision`.
    pub fn new(precision: u64) -> (r: Self)
        ensures
            r.position() == 0,
            r.tolerance() == precision,
    {
        PrecisionBound { position: 0, precision }
    }

    /// The number of low bits that the last call cleared, where the next
    /// search starts.
    pub fn truncation_position(&self) -> (p: u64)
        ensures
            p == self.position(),
            p <= MAX_POSITION,
    {
        proof {
            use_type_invariant(self);
        }
        self.position
    }

    /// Clears as many low bits of `orig` as the tolerance admits, at most
    /// the whole fraction, and none where it admits no truncation at all.
    pub fn precision_bound(&mut self, orig: u64) -> (r: u64)
        ensures
            final(self).tolerance() == old(self).tolerance(),
            final(self).position() <= MAX_POSITION,
            r == truncated(orig, final(self).position()),
            final(self).position() == 0 ==> r == orig,
            !is_positive(old(self).tolerance()) ==> final(self).position() == 0,
            final(self).position() > 0 ==> admits(
                orig,
                final(self).position(),
                old(self).tolerance(),
            ),
            forall|p: u64|
                final(self).position() < p <= MAX_POSITION ==> !#[trigger] admits(
                    orig,
                    p,
                    old(self).tolerance(),
                ),
    {
        proof {
            use_type_invariant(&*self);
            lemma_truncated_zero(orig);
        }
        let ghost tol = self.precision;
        let mut pos: u64 = self.position;
        let mut pre: u64 = truncate(orig, pos);
        proof {
            lemma_truncated_fields(orig, pos, pos);
        }
        if self.is_bounded(orig, pre) {
            // the coarsest admitted truncation lies at or above the start
            let mut rising = true;
            while rising && pos < 52
                invariant
                    pos <= 52,
                    self.precision == tol,
                    pre == truncated(orig, pos),
                    admits(orig, pos, tol),
                    !rising ==> pos < 52 && !admits(orig, (pos + 1) as u64, tol),
                decreases 52 - pos + if rising { 1int } else { 0int },
            {
                let cur = truncate(orig, pos + 1);
                proof {
                    lemma_truncated_fields(orig, (pos + 1) as u64, (pos + 1) as u64);
                }
                if self.is_bounded(orig, cur) {
                    pos += 1;
                    pre = cur;
                } else {
                    rising = false;
                }
            }
            assert forall|p: u64| pos < p <= 52 implies !#[trigger] admits(orig, p, tol) by {
                if admits(orig, p, tol) {
                    lemma_admits_monotone(orig, (pos + 1) as u64, p, tol);
                }
            }
        } else {
            // no truncation at or above the start is admitted
            assert forall|p: u64| pos <= p <= 52 implies !#[trigger] admits(orig, p, tol) by {
                if admits(orig, p, tol) {
                    lemma_admits_monotone(orig, pos, p, tol);
                }
            }
            let mut falling = true;
            while falling && pos > 0
                invariant
                    pos <= 52,
                    self.precision == tol,
                    pre == truncated(orig, pos),
                    falling ==> !admits(orig, pos, tol),
                    !falling ==> admits(orig, pos, tol),
                    forall|p: u64| pos < p <= 52 ==> !#[trigger] admits(orig, p, tol),
                decreases pos + if falling { 1int } else { 0int },
            {
                let cur = truncate(orig, pos - 1);
                proof {
                    lemma_truncated_fields(orig, (pos - 1) as u64, (pos - 1) as u64);
                }
                if self.is_bounded(orig, cur) {
                    falling = false;
                }
                pos -= 1;
                pre = cur;
            }
        }
        proof {
            if !is_positive(tol) {
                lemma_no_tolerance(orig, truncated(orig, pos), tol);
            }
        }
        self.position = pos;
        pre
    }

    /// Whether `b` is within the tolerance of `a`, for two doubles of one
    /// sign and exponent.
    pub fn is_bounded(&self, a: u64, b: u64) -> (r: bool)
        requires
            same_binade(a, b),
        ensures
            r == within(a, b, self.tolerance()),
    {
        let tol = self.precision;
        let e: u64 = (a >> 52) & 0x7ff;
        let te: u64 = (tol >> 52) & 0x7ff;
        let tf: u64 = tol & 0x000f_ffff_ffff_ffff;
        if e == 0x7ff || (tol >> 63) != 0 {
            return false;
        }
        if te == 0x7ff {
            return tf == 0;
        }
        let fa: u64 = a & 0x000f_ffff_ffff_ffff;
        let fb: u64 = b & 0x000f_ffff_ffff_ffff;
        proof {
            assert(a & 0x000f_ffff_ffff_ffff < 0x0010_0000_0000_0000) by (bit_vector);
            assert(b & 0x000f_ffff_ffff_ffff < 0x0010_0000_0000_0000) by (bit_vector);
            assert(tol & 0x000f_ffff_ffff_ffff < 0x0010_0000_0000_0000) by (bit_vector);
            assert((a >> 52) & 0x7ff <= 0x7ff) by (bit_vector);
            assert((tol >> 52) & 0x7ff <= 0x7ff) by (bit_vector);
        }
        let k: u64 = if fa >= fb {
            fa - fb
        } else {
            fb - fa
        };
        let m: u64 = if te == 0 {
            tf
        } else {
            tf + 0x0010_0000_0000_0000
        };
        let sa: u64 = if e == 0 {
            1
        } else {
            e
        };
        let st: u64 = if te == 0 {
            1
        } else {
            te
        };
        assert(distance(a, b) == k * pow2(sa as nat));
        assert(magnitude(tol) == m * pow2(st as nat));
        if m == 0 {
            assert(m * pow2(st as nat) == 0) by (nonlinear_arith)
                requires
                    m == 0,
            ;
            return false;
        }
        if sa < st {
            proof {
                let pa = pow2(sa as nat);
                let pt = pow2(st as nat);
                lemma_pow2_pos(sa as nat);
                lemma_pow2_strictly_increases(sa as nat, st as nat);
                assert(k * pa < m * pt) by (nonlinear_arith)
                    requires
                        k < m,
                        0 < pa < pt,
                ;
            }
            true
        } else {
            let d: u64 = sa - st;
            proof {
                lemma_scaled_compare(k as nat, m as nat, sa as nat, st as nat);
            }
            if d >= 64 {
                proof {
                    let pd = pow2(d as nat);
                    lemma2_to64();
                    lemma2_to64_rest();
                    if d > 64 {
                        lemma_pow2_strictly_increases(64, d as nat);
                    }
                    assert(k >= 1 ==> k * pd >= m) by (nonlinear_arith)
                        requires
                            pd > m,
                    ;
                    assert(k == 0 ==> k * pd == 0) by (nonlinear_arith);
                }
                k == 0
            } else {
                proof {
                    lemma_u64_mul_pow2_le_max_iff_max_shr(k, d, (m - 1) as u64);
                }
                k <= (m - 1) >> d
            }
        }
    }
}

} // verus!
