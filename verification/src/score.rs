//! Closeness scores.
//!
//! The closeness of a guess is a single-precision float computed on the device
//! from colour-space geometry. The game only ever compares two scores with
//! `>=` and truncates a score to a `u8` percentage, so the library keeps a
//! score as its IEEE-754 bit pattern and performs those two operations on the
//! bits, proved against the real value that the pattern denotes.
use vstd::prelude::*;
use vstd::arithmetic::power2::{
    pow2,
    lemma2_to64,
    lemma_pow2_adds,
    lemma_pow2_pos,
    lemma_pow2_strictly_increases,
    lemma_pow2_unfold,
};
use vstd::arithmetic::div_mod::{
    lemma_basic_div,
    lemma_div_by_multiple,
    lemma_div_denominator,
    lemma_div_is_ordered,
    lemma_multiply_divide_lt,
};
use vstd::bits::lemma_u32_shr_is_div;

verus! {

/// Bit pattern of the single-precision float `85.0`, the closeness a guess
/// must reach to win the round.
pub const WINNING_SCORE_BITS: u32 = 0x42AA_0000;

/// Bit pattern of the single-precision float `100.0`, the closeness of a
/// guess that hits the secret exactly.
pub const PERFECT_SCORE_BITS: u32 = 0x42C8_0000;

/// Bit pattern of the single-precision float `0.0`.
pub const ZERO_SCORE_BITS: u32 = 0;

/// The sign bit of a single-precision bit pattern.
pub open spec fn sign_bit(b: u32) -> bool {
    b >= 0x8000_0000
}

/// The bit pattern with the sign bit cleared (exponent and fraction fields).
pub open spec fn magnitude_bits(b: u32) -> nat {
    (b % 0x8000_0000) as nat
}

/// The pattern encodes a NaN: all exponent bits set and a non-zero fraction.
pub open spec fn is_nan(b: u32) -> bool {
    magnitude_bits(b) > 0x7f80_0000
}

/// The pattern encodes an infinity: all exponent bits set and a zero fraction.
pub open spec fn is_infinite(b: u32) -> bool {
    magnitude_bits(b) == 0x7f80_0000
}

/// The absolute value of a finite float times `2^149`, from its magnitude bits.
/// Every finite single-precision value is a multiple of `2^-149`, so this is
/// an exact natural number: subnormals are `fraction * 2^-149` and normals are
/// `(2^23 + fraction) * 2^(exponent - 150)`.
pub open spec fn scaled_magnitude(m: nat) -> nat {
    let e = m / 0x80_0000;
    let f = m % 0x80_0000;
    if e == 0 {
        f
    } else {
        (f + 0x80_0000) * pow2((e - 1) as nat)
    }
}

/// Where a magnitude lies on the extended real line, scaled by `2^149`:
/// the infinity pattern is placed above every finite value.
pub open spec fn magnitude_rank(m: nat) -> nat {
    if m >= 0x7f80_0000 {
        pow2(280)
    } else {
        scaled_magnitude(m)
    }
}

/// The signed position of a non-NaN pattern on the extended real line, scaled
/// by `2^149` (both zeros sit at `0`).
pub open spec fn rank(b: u32) -> int {
    if sign_bit(b) {
        -magnitude_rank(magnitude_bits(b))
    } else {
        magnitude_rank(magnitude_bits(b)) as int
    }
}

/// IEEE-754 `a >= b`: false as soon as either operand is a NaN, otherwise the
/// order of the extended reals (so `-0.0 >= 0.0`).
pub open spec fn score_ge(a: u32, b: u32) -> bool {
    !is_nan(a) && !is_nan(b) && rank(a) >= rank(b)
}

/// The saturating float-to-`u8` cast: truncation toward zero, clamped to
/// `0..=255`, with NaN and every negative value giving `0`.
pub open spec fn score_as_u8(b: u32) -> u8 {
    if is_nan(b) || sign_bit(b) {
        0
    } else if is_infinite(b) {
        255
    } else {
        let q = scaled_magnitude(magnitude_bits(b)) / pow2(149);
        if q >= 255 {
            255
        } else {
            q as u8
        }
    }
}

proof fn lemma_low_powers()
    ensures
        pow2(0) == 1,
        pow2(16) == 0x1_0000,
        pow2(23) == 0x80_0000,
        pow2(24) == 0x100_0000,
{
    lemma2_to64();
}

/// Consecutive magnitude patterns denote strictly increasing values.
proof fn lemma_rank_step(m: nat)
    requires
        m < 0x7f80_0000,
    ensures
        magnitude_rank(m) < magnitude_rank(m + 1),
{
    lemma_low_powers();
    let e = m / 0x80_0000;
    let f = m % 0x80_0000;
    assert(m == 0x80_0000 * e + f);
    if f + 1 < 0x80_0000 {
        assert((m + 1) / 0x80_0000 == e);
        assert((m + 1) % 0x80_0000 == f + 1);
        if e > 0 {
            let p = pow2((e - 1) as nat);
            lemma_pow2_pos((e - 1) as nat);
            assert((f + 0x80_0000) * p < (f + 1 + 0x80_0000) * p) by (nonlinear_arith)
                requires
                    p > 0,
            ;
        }
    } else {
        assert(f == 0x7f_ffff);
        assert((m + 1) / 0x80_0000 == e + 1);
        assert((m + 1) % 0x80_0000 == 0);
        if m + 1 == 0x7f80_0000 {
            assert(e == 254);
            let p = pow2(253);
            lemma_pow2_adds(24, 253);
            lemma_pow2_strictly_increases(277, 280);
            lemma_pow2_pos(253);
            assert(0xff_ffff * p < 0x100_0000 * p) by (nonlinear_arith)
                requires
                    p > 0,
            ;
        } else if e == 0 {
            assert(magnitude_rank(m + 1) == 0x80_0000 * pow2(0));
        } else {
            let p = pow2((e - 1) as nat);
            lemma_pow2_pos((e - 1) as nat);
            lemma_pow2_unfold(e as nat);
            assert(0xff_ffff * p < 0x80_0000 * (2 * p)) by (nonlinear_arith)
                requires
                    p > 0,
            ;
        }
    }
}

/// Larger magnitude patterns denote strictly larger values.
proof fn lemma_rank_increasing(u: nat, v: nat)
    requires
        u < v <= 0x7f80_0000,
    ensures
        magnitude_rank(u) < magnitude_rank(v),
    decreases v - u,
{
    lemma_rank_step((v - 1) as nat);
    if u < v - 1 {
        lemma_rank_increasing(u, (v - 1) as nat);
    }
}

/// Two non-NaN magnitudes are ordered exactly as their bit patterns.
proof fn lemma_rank_order(u: nat, v: nat)
    requires
        u <= 0x7f80_0000,
        v <= 0x7f80_0000,
    ensures
        (magnitude_rank(u) >= magnitude_rank(v)) == (u >= v),
        magnitude_rank(0) == 0,
        u > 0 ==> magnitude_rank(u) > 0,
{
    if u < v {
        lemma_rank_increasing(u, v);
    } else if v < u {
        lemma_rank_increasing(v, u);
    }
    if u > 0 {
        lemma_rank_increasing(0, u);
    }
}

/// On patterns that are not NaN, `>=` is a total preorder: reflexive,
/// transitive and total; it holds both ways exactly between equal patterns
/// and the two zeros.
pub proof fn lemma_score_ge_total_preorder(a: u32, b: u32, c: u32)
    requires
        !is_nan(a),
        !is_nan(b),
        !is_nan(c),
    ensures
        score_ge(a, a),
        score_ge(a, b) || score_ge(b, a),
        score_ge(a, b) && score_ge(b, c) ==> score_ge(a, c),
        (score_ge(a, b) && score_ge(b, a)) == (a == b || (magnitude_bits(a) == 0
            && magnitude_bits(b) == 0)),
{
    lemma_rank_order(magnitude_bits(a), magnitude_bits(b));
    lemma_rank_order(magnitude_bits(b), magnitude_bits(a));
    lemma_rank_order(magnitude_bits(c), magnitude_bits(a));
    if score_ge(a, b) && score_ge(b, a) && magnitude_bits(a) + magnitude_bits(b) > 0 {
        assert(a % 0x8000_0000 + (if a >= 0x8000_0000 { 0x8000_0000int } else { 0int }) == a);
        assert(b % 0x8000_0000 + (if b >= 0x8000_0000 { 0x8000_0000int } else { 0int }) == b);
    }
}

/// The winning closeness is announced as a difficulty of 85 percent, and a
/// zero score as 0 percent.
pub proof fn lemma_named_scores_as_percent()
    ensures
        score_as_u8(WINNING_SCORE_BITS) == 85,
        score_as_u8(ZERO_SCORE_BITS) == 0,
        !is_nan(WINNING_SCORE_BITS),
        !is_nan(ZERO_SCORE_BITS),
{
    let m = magnitude_bits(WINNING_SCORE_BITS);
    assert(m == 0x42AA_0000);
    assert(m / 0x80_0000 == 133);
    assert(m % 0x80_0000 == 0x2A_0000);
    let p = pow2(132);
    let q = pow2(17);
    lemma_pow2_adds(132, 17);
    lemma_pow2_pos(132);
    lemma_pow2_pos(17);
    lemma2_to64();
    assert(q == 0x2_0000);
    assert(scaled_magnitude(m) == 0xAA_0000 * p);
    lemma_div_denominator((0xAA_0000 * p) as int, p as int, q as int);
    lemma_div_by_multiple(0xAA_0000, p as int);
    assert((0xAA_0000 * p) as int / (p as int) == 0xAA_0000);
    assert(0xAA_0000int / 0x2_0000int == 85);
}

/// The percentage never drops as the score rises: a score at least as high
/// as another gives at least its percentage.
pub proof fn lemma_percent_monotone(a: u32, b: u32)
    requires
        score_ge(a, b),
    ensures
        score_as_u8(a) >= score_as_u8(b),
{
    let ma = magnitude_bits(a);
    let mb = magnitude_bits(b);
    lemma_rank_order(ma, mb);
    lemma_rank_order(mb, ma);
    lemma_pow2_pos(149);
    if !sign_bit(b) {
        if sign_bit(a) {
            assert(mb == 0);
            assert(scaled_magnitude(0) == 0);
            lemma_basic_div(0, pow2(149) as int);
        } else if !is_infinite(a) {
            assert(scaled_magnitude(ma) >= scaled_magnitude(mb));
            lemma_div_is_ordered(
                scaled_magnitude(mb) as int,
                scaled_magnitude(ma) as int,
                pow2(149) as int,
            );
        }
    }
}

/// IEEE-754 `a >= b` on two single-precision bit patterns.
pub fn bits_ge(a: u32, b: u32) -> (r: bool)
    ensures
        r == score_ge(a, b),
{
    let ma = a & 0x7fff_ffff;
    let mb = b & 0x7fff_ffff;
    assert(a & 0x7fff_ffff == a % 0x8000_0000) by (bit_vector);
    assert(b & 0x7fff_ffff == b % 0x8000_0000) by (bit_vector);
    if ma > 0x7f80_0000 || mb > 0x7f80_0000 {
        return false;
    }
    proof {
        lemma_rank_order(ma as nat, mb as nat);
    }
    if ma == 0 && mb == 0 {
        return true;
    }
    let sa = a >= 0x8000_0000;
    let sb = b >= 0x8000_0000;
    if !sa && !sb {
        ma >= mb
    } else if !sa {
        true
    } else if !sb {
        proof {
            lemma_rank_order(mb as nat, ma as nat);
        }
        false
    } else {
        proof {
            lemma_rank_order(mb as nat, ma as nat);
        }
        mb >= ma
    }
}

/// The saturating cast `x as u8` of the float whose bit pattern is `a`.
pub fn bits_to_u8(a: u32) -> (r: u8)
    ensures
        r == score_as_u8(a),
{
    if a >= 0x8000_0000 || a > 0x7f80_0000 {
        return 0;
    }
    let e = a >> 23;
    proof {
        lemma_low_powers();
        lemma_u32_shr_is_div(a, 23);
        assert(magnitude_bits(a) == a);
    }
    if e >= 135 {
        proof {
            if e < 255 {
                let p = pow2((e - 1) as nat);
                let m = scaled_magnitude(a as nat);
                assert(m == (a % 0x80_0000 + 0x80_0000) * p);
                lemma_pow2_adds(134, (e - 135) as nat);
                lemma_pow2_pos((e - 135) as nat);
                assert(pow2(134) <= p) by (nonlinear_arith)
                    requires
                        p == pow2(134) * pow2((e - 135) as nat),
                        pow2((e - 135) as nat) > 0,
                ;
                lemma_pow2_adds(8, 149);
                lemma_pow2_adds(23, 134);
                lemma_pow2_pos(149);
                lemma2_to64();
                assert(m >= 256 * pow2(149)) by (nonlinear_arith)
                    requires
                        m == (a % 0x80_0000 + 0x80_0000) * p,
                        pow2(134) <= p,
                        pow2(157) == 0x80_0000 * pow2(134),
                        pow2(157) == 256 * pow2(149),
                ;
                lemma_div_is_ordered((256 * pow2(149)) as int, m as int, pow2(149) as int);
                lemma_div_by_multiple(256, pow2(149) as int);
            }
        }
        return 255;
    }
    if e < 127 {
        proof {
            let m = scaled_magnitude(a as nat);
            lemma_pow2_pos(149);
            if e == 0 {
                lemma_pow2_strictly_increases(23, 149);
            } else {
                let p = pow2((e - 1) as nat);
                lemma_pow2_pos((e - 1) as nat);
                lemma_pow2_adds(24, 125);
                if e < 126 {
                    lemma_pow2_strictly_increases((e - 1) as nat, 125);
                }
                assert(m < pow2(149)) by (nonlinear_arith)
                    requires
                        m == (a % 0x80_0000 + 0x80_0000) * p,
                        a % 0x80_0000 < 0x80_0000,
                        0 < p <= pow2(125),
                        pow2(149) == 0x100_0000 * pow2(125),
                ;
            }
            lemma_basic_div(m as int, pow2(149) as int);
        }
        return 0;
    }
    let frac = a & 0x7f_ffff;
    assert(a & 0x7f_ffff == a % 0x80_0000) by (bit_vector);
    let full = frac | 0x80_0000;
    assert(frac < 0x80_0000 ==> (frac | 0x80_0000) == frac + 0x80_0000) by (bit_vector);
    let shift = 150 - e;
    let q = full >> shift;
    proof {
        lemma_u32_shr_is_div(full, shift);
        let p = pow2((e - 1) as nat);
        let d = pow2(shift as nat);
        let m = scaled_magnitude(a as nat);
        assert(m == full * p);
        lemma_pow2_adds((e - 1) as nat, shift as nat);
        lemma_pow2_pos((e - 1) as nat);
        lemma_pow2_pos(shift as nat);
        lemma_div_denominator(m as int, p as int, d as int);
        assert(m == p * full) by (nonlinear_arith)
            requires
                m == full * p,
        ;
        lemma_div_by_multiple(full as int, p as int);
        assert(m / p == full) by (nonlinear_arith)
            requires
                m == full * p,
                (full * p) as int / (p as int) == full,
        ;
        if shift > 16 {
            lemma_pow2_strictly_increases(16, shift as nat);
        }
        assert(full < d * 256) by (nonlinear_arith)
            requires
                full < 0x100_0000,
                d >= 0x1_0000,
        ;
        lemma_multiply_divide_lt(full as int, d as int, 256);
    }
    q as u8
}

} // verus!
