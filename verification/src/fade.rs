//! The linear fade-to-silence envelope applied to the outro.
//!
//! The envelope at offset `i` of a fade window of `fade` samples is the
//! rational `(fade - i) / fade`: full scale at the first sample of the
//! window, falling linearly, and still positive (`1 / fade`) at the last.
//! A faded sample is the input sample times that rational, with the
//! quotient truncated toward zero.

use vstd::arithmetic::div_mod::{
    lemma_div_is_ordered, lemma_div_multiples_vanish, lemma_div_pos_is_pos,
};
use vstd::arithmetic::mul::{lemma_mul_inequality, lemma_mul_is_commutative};
use vstd::prelude::*;

verus! {

/// Numerator of the fade envelope at offset `i` of a window of `fade`
/// samples; the envelope value is the rational `fade_scale_num(fade, i) / fade`.
pub open spec fn fade_scale_num(fade: int, i: int) -> int {
    fade - i
}

/// `s` scaled by the rational `num / den`, truncated toward zero: the
/// magnitude of `s` is scaled down and the sign is restored.
pub open spec fn scale_trunc(s: int, num: int, den: int) -> int {
    if s >= 0 {
        (s * num) / den
    } else {
        -((-s * num) / den)
    }
}

/// The faded copy of sample `s` at offset `i` of a fade window of `fade`
/// samples. The scaled value never grows in magnitude (see
/// [`lemma_scale_trunc_bounds`]), so the cast back to `i16` is lossless.
pub open spec fn faded_sample(s: i16, i: int, fade: int) -> i16 {
    scale_trunc(s as int, fade_scale_num(fade, i), fade) as i16
}

/// Scaling a non-negative magnitude by `num / den` with `num <= den` never
/// grows it and never makes it negative.
proof fn lemma_scaled_mag_bounds(m: int, num: int, den: int)
    requires
        0 <= m,
        0 <= num <= den,
        0 < den,
    ensures
        0 <= (m * num) / den <= m,
{
    lemma_div_pos_is_pos(m * num, den);
    lemma_mul_inequality(num, den, m);
    lemma_mul_is_commutative(num, m);
    lemma_mul_is_commutative(den, m);
    lemma_div_is_ordered(m * num, den * m, den);
    lemma_div_multiples_vanish(m, den);
}

/// A sample scaled by an envelope value of at most one keeps its sign and
/// never grows in magnitude, so the scaled value still fits in `i16`.
pub proof fn lemma_scale_trunc_bounds(s: int, num: int, den: int)
    requires
        0 <= num <= den,
        0 < den,
    ensures
        s >= 0 ==> 0 <= scale_trunc(s, num, den) <= s,
        s < 0 ==> s <= scale_trunc(s, num, den) <= 0,
{
    if s >= 0 {
        lemma_scaled_mag_bounds(s, num, den);
    } else {
        lemma_scaled_mag_bounds(-s, num, den);
    }
}

/// Law: the fade envelope starts at full scale (`scale(0) == 1`, i.e. the
/// numerator equals the denominator), decreases monotonically across the
/// window, and is still positive at the last offset (`scale(fade - 1) ==
/// 1 / fade > 0`).
pub proof fn lemma_fade_envelope(fade: int)
    requires
        0 < fade,
    ensures
        fade_scale_num(fade, 0) == fade,
        forall|i: int|
            0 <= i < fade - 1 ==> #[trigger] fade_scale_num(fade, i) >= fade_scale_num(fade, i + 1),
        fade_scale_num(fade, fade - 1) == 1,
{
}

/// Applies the fade envelope to one sample: offset `i` of a window of
/// `fade` samples.
pub fn scale_sample(s: i16, i: usize, fade: usize) -> (r: i16)
    requires
        i < fade,
    ensures
        r == faded_sample(s, i as int, fade as int),
{
    let num: u128 = (fade - i) as u128;
    let den: u128 = fade as u128;
    proof {
        lemma_scale_trunc_bounds(s as int, num as int, den as int);
    }
    if s >= 0 {
        let mag: u128 = s as u128;
        proof {
            assert(mag * num <= 32768 * 0xffff_ffff_ffff_ffffu128) by (nonlinear_arith)
                requires
                    0 <= mag <= 32768,
                    0 <= num <= 0xffff_ffff_ffff_ffffu128,
            ;
        }
        let scaled: u128 = (mag * num) / den;
        scaled as i16
    } else {
        let mag: u128 = (-(s as i32)) as u128;
        proof {
            assert(mag * num <= 32768 * 0xffff_ffff_ffff_ffffu128) by (nonlinear_arith)
                requires
                    0 <= mag <= 32768,
                    0 <= num <= 0xffff_ffff_ffff_ffffu128,
            ;
        }
        let scaled: u128 = (mag * num) / den;
        (-(scaled as i32)) as i16
    }
}

} // verus!
