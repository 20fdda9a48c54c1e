//! The ten-octave audio spectrum map.
//!
//! Frequencies between 20 Hz and 20480 Hz span exactly ten octaves around
//! the anchor of 40 Hz; the spectrum position of a frequency `f` is
//! `(log2(f / 40 Hz) + 1) / 10`, scaled to millionths.  The base-two
//! logarithm is computed in fixed point: the mantissa is normalized into
//! one octave and twenty fractional bits are extracted by repeated
//! squaring.

use crate::normal::UNIT;
use vstd::arithmetic::div_mod::lemma_div_is_ordered;
use vstd::arithmetic::div_mod::lemma_div_pos_is_pos;
use vstd::arithmetic::div_mod::lemma_div_multiples_vanish;
use vstd::arithmetic::power2::lemma2_to64;
use vstd::arithmetic::power2::lemma_pow2_adds;
use vstd::arithmetic::mul::lemma_mul_inequality;
use vstd::arithmetic::power2::pow2;
use vstd::prelude::*;

verus! {

/// The lowest frequency of the spectrum, in micro-hertz: 20 Hz.
pub const MIN_FREQ: i64 = 20_000_000;

/// The highest frequency of the spectrum, in micro-hertz: 20480 Hz.
pub const MAX_FREQ: i64 = 20_480_000_000;

/// The 40 Hz anchor of the octave grid, in micro-hertz.
pub const ANCHOR_FREQ: i64 = 40_000_000;

/// One octave is a tenth of the spectrum: 100000 millionths.
pub const OCTAVE_STEP: i64 = 100_000;

/// Fixed-point scale of the logarithm mantissa: two to the fortieth.
pub const MANTISSA_ONE: u128 = 0x100_0000_0000;

/// Number of fractional logarithm bits extracted.
pub const FRAC_BITS: u64 = 20;

/// Scale of the extracted fraction: two to the twentieth.
pub const FRAC_ONE: u64 = 0x10_0000;

/// The first `i` fractional bits of `log2(m / MANTISSA_ONE)`, as an
/// integer in `[0, 2^i)`, extracted most significant bit first by
/// repeated squaring of the mantissa.
pub open spec fn frac_bits(m: int, i: nat) -> int
    decreases i,
{
    if i == 0 {
        0
    } else {
        let m2 = (m * m) / (MANTISSA_ONE as int);
        if m2 >= 2 * MANTISSA_ONE {
            pow2((i - 1) as nat) as int + frac_bits(m2 / 2, (i - 1) as nat)
        } else {
            frac_bits(m2, (i - 1) as nat)
        }
    }
}

/// The spectrum position of a mantissa `m` at octave offset `e`: the
/// mantissa is halved into `[MANTISSA_ONE, 2 * MANTISSA_ONE)` while
/// counting octaves, then each whole octave above the lowest counts one
/// octave step and the fractional bits fill the last step.
pub open spec fn spectrum_from(m: int, e: int) -> int
    decreases m,
{
    if m < 2 * MANTISSA_ONE {
        (e + 1) * (OCTAVE_STEP as int) + frac_bits(m, FRAC_BITS as nat) * (OCTAVE_STEP as int)
            / (FRAC_ONE as int)
    } else {
        spectrum_from(m / 2, e + 1)
    }
}

/// The spectrum position of frequency `f` (micro-hertz), in millionths:
/// zero at 20 Hz, one million at 20480 Hz, one octave step per octave.
pub open spec fn spectrum_of(f: int) -> int {
    let xq = f * (MANTISSA_ONE as int) / (ANCHOR_FREQ as int);
    if xq < MANTISSA_ONE {
        spectrum_from(2 * xq, -1)
    } else {
        spectrum_from(xq, 0)
    }
}

/// The fractional bits form an integer below `2^i`.
pub proof fn lemma_frac_bits_range(m: int, i: nat)
    ensures
        0 <= frac_bits(m, i) < pow2(i),
    decreases i,
{
    if i == 0 {
        assert(pow2(0) == 1) by {
            lemma2_to64();
        }
    } else {
        let m2 = (m * m) / (MANTISSA_ONE as int);
        lemma_frac_bits_range(m2 / 2, (i - 1) as nat);
        lemma_frac_bits_range(m2, (i - 1) as nat);
        lemma_pow2_adds(1, (i - 1) as nat);
        assert(pow2(1) == 2) by {
            lemma2_to64();
        }
    }
}

/// A mantissa of exactly one produces no fractional bits: its logarithm
/// is zero.
pub proof fn lemma_frac_bits_one(i: nat)
    ensures
        frac_bits(MANTISSA_ONE as int, i) == 0,
    decreases i,
{
    if i > 0 {
        let q = MANTISSA_ONE as int;
        lemma_div_multiples_vanish(q, q);
        assert((q * q) / q == q);
        lemma_frac_bits_one((i - 1) as nat);
    }
}

/// The spectrum positions of the range ends: 20 Hz sits at zero and
/// 20480 Hz at the top of the normal range.
pub proof fn lemma_spectrum_anchors()
    ensures
        spectrum_of(MIN_FREQ as int) == 0,
        spectrum_of(MAX_FREQ as int) == UNIT,
{
    let q = MANTISSA_ONE as int;
    assert((MIN_FREQ as int) * q / (ANCHOR_FREQ as int) == q / 2);
    lemma_frac_bits_one(FRAC_BITS as nat);
    assert(spectrum_from(q, -1) == 0);
    assert((MAX_FREQ as int) * q / (ANCHOR_FREQ as int) == 512 * q);
    assert(spectrum_from(512 * q, 0) == spectrum_from(q, 9)) by {
        assert(spectrum_from(512 * q, 0) == spectrum_from(256 * q, 1));
        assert(spectrum_from(256 * q, 1) == spectrum_from(128 * q, 2));
        assert(spectrum_from(128 * q, 2) == spectrum_from(64 * q, 3));
        assert(spectrum_from(64 * q, 3) == spectrum_from(32 * q, 4));
        assert(spectrum_from(32 * q, 4) == spectrum_from(16 * q, 5));
        assert(spectrum_from(16 * q, 5) == spectrum_from(8 * q, 6));
        assert(spectrum_from(8 * q, 6) == spectrum_from(4 * q, 7));
        assert(spectrum_from(4 * q, 7) == spectrum_from(2 * q, 8));
        assert(spectrum_from(2 * q, 8) == spectrum_from(q, 9));
    }
    assert(spectrum_from(q, 9) == UNIT);
}

/// Within one octave, a larger mantissa never yields smaller fractional
/// bits.
pub proof fn lemma_frac_bits_monotone(m1: int, m2: int, i: nat)
    requires
        MANTISSA_ONE as int <= m1 <= m2 < 2 * (MANTISSA_ONE as int),
    ensures
        frac_bits(m1, i) <= frac_bits(m2, i),
    decreases i,
{
    if i > 0 {
        let q = MANTISSA_ONE as int;
        let a1 = (m1 * m1) / q;
        let a2 = (m2 * m2) / q;
        assert(m1 * m1 <= m2 * m2) by (nonlinear_arith)
            requires
                0 <= m1 <= m2,
        ;
        lemma_div_is_ordered(m1 * m1, m2 * m2, q);
        assert(a1 >= q && a2 >= q) by (nonlinear_arith)
            requires
                a1 == (m1 * m1) / q && a2 == (m2 * m2) / q && m1 >= q && m2 >= q && q > 0,
        ;
        assert(a1 < 4 * q && a2 < 4 * q) by (nonlinear_arith)
            requires
                a1 == (m1 * m1) / q && a2 == (m2 * m2) / q && 0 <= m1 < 2 * q && 0 <= m2 < 2 * q,
        ;
        if a1 >= 2 * q {
            lemma_div_is_ordered(a1, a2, 2);
            lemma_frac_bits_monotone(a1 / 2, a2 / 2, (i - 1) as nat);
        } else if a2 < 2 * q {
            lemma_frac_bits_monotone(a1, a2, (i - 1) as nat);
        } else {
            lemma_frac_bits_range(a1, (i - 1) as nat);
            lemma_frac_bits_range(a2 / 2, (i - 1) as nat);
        }
    }
}

/// Every spectrum position sits at or above the floor of its octave.
proof fn lemma_spectrum_from_lower(m: int, e: int)
    requires
        m >= MANTISSA_ONE,
    ensures
        spectrum_from(m, e) >= (e + 1) * (OCTAVE_STEP as int),
    decreases m,
{
    if m < 2 * MANTISSA_ONE {
        lemma_frac_bits_range(m, FRAC_BITS as nat);
        let fb = frac_bits(m, FRAC_BITS as nat);
        assert(fb * (OCTAVE_STEP as int) >= 0) by (nonlinear_arith)
            requires
                fb >= 0,
        ;
        lemma_div_pos_is_pos(fb * (OCTAVE_STEP as int), FRAC_ONE as int);
    } else {
        lemma_spectrum_from_lower(m / 2, e + 1);
    }
}

/// A spectrum position inside one octave stays below the next octave's
/// floor.
proof fn lemma_spectrum_from_upper_octave(m: int, e: int)
    requires
        m < 2 * MANTISSA_ONE,
    ensures
        spectrum_from(m, e) < (e + 2) * (OCTAVE_STEP as int),
{
    lemma_frac_bits_range(m, FRAC_BITS as nat);
    assert(pow2(20) == FRAC_ONE) by {
        lemma2_to64();
    }
    let fb = frac_bits(m, FRAC_BITS as nat);
    lemma_mul_inequality(fb, FRAC_ONE as int - 1, OCTAVE_STEP as int);
    lemma_div_is_ordered(
        fb * (OCTAVE_STEP as int),
        ((FRAC_ONE as int) - 1) * (OCTAVE_STEP as int),
        FRAC_ONE as int,
    );
    assert((((FRAC_ONE as int) - 1) * (OCTAVE_STEP as int)) / (FRAC_ONE as int) < OCTAVE_STEP
        as int);
}

/// The spectrum position never falls as the mantissa grows.
pub proof fn lemma_spectrum_from_monotone(m1: int, m2: int, e: int)
    requires
        MANTISSA_ONE as int <= m1 <= m2,
    ensures
        spectrum_from(m1, e) <= spectrum_from(m2, e),
    decreases m2,
{
    let q2 = 2 * (MANTISSA_ONE as int);
    if m2 < q2 {
        lemma_frac_bits_monotone(m1, m2, FRAC_BITS as nat);
        lemma_mul_inequality(
            frac_bits(m1, FRAC_BITS as nat),
            frac_bits(m2, FRAC_BITS as nat),
            OCTAVE_STEP as int,
        );
        lemma_div_is_ordered(
            frac_bits(m1, FRAC_BITS as nat) * (OCTAVE_STEP as int),
            frac_bits(m2, FRAC_BITS as nat) * (OCTAVE_STEP as int),
            FRAC_ONE as int,
        );
    } else if m1 < q2 {
        lemma_spectrum_from_upper_octave(m1, e);
        lemma_spectrum_from_lower(m2 / 2, e + 1);
    } else {
        lemma_div_is_ordered(m1, m2, 2);
        lemma_spectrum_from_monotone(m1 / 2, m2 / 2, e + 1);
    }
}

/// The spectrum map never falls as the frequency grows.
pub proof fn lemma_spectrum_monotone(f1: int, f2: int)
    requires
        MIN_FREQ as int <= f1 <= f2 <= MAX_FREQ as int,
    ensures
        spectrum_of(f1) <= spectrum_of(f2),
{
    let q = MANTISSA_ONE as int;
    let anchor = ANCHOR_FREQ as int;
    let xq1 = f1 * q / anchor;
    let xq2 = f2 * q / anchor;
    lemma_mul_inequality(f1, f2, q);
    lemma_div_is_ordered(f1 * q, f2 * q, anchor);
    lemma_div_is_ordered((MIN_FREQ as int) * q, f1 * q, anchor);
    assert((MIN_FREQ as int) * q / anchor == q / 2);
    if xq2 < q {
        lemma_spectrum_from_monotone(2 * xq1, 2 * xq2, -1);
    } else if xq1 < q {
        lemma_spectrum_from_upper_octave(2 * xq1, -1);
        lemma_spectrum_from_lower(xq2, 0);
    } else {
        lemma_spectrum_from_monotone(xq1, xq2, 0);
    }
}

/// Over the whole spectrum the map stays within the normal range.
pub proof fn lemma_spectrum_in_range(f: int)
    requires
        MIN_FREQ as int <= f <= MAX_FREQ as int,
    ensures
        0 <= spectrum_of(f) <= UNIT,
{
    lemma_spectrum_anchors();
    lemma_spectrum_monotone(MIN_FREQ as int, f);
    lemma_spectrum_monotone(f, MAX_FREQ as int);
}

/// What it means for `f` to be the first frequency in `[minf, maxf]`
/// whose spectrum position reaches `target`.
pub open spec fn is_first_at_or_above(minf: int, maxf: int, target: int, f: int) -> bool {
    &&& minf <= f <= maxf
    &&& spectrum_of(f) >= target
    &&& (f == minf || spectrum_of(f - 1) < target)
}

/// A first crossing exists whenever the top of the range reaches the
/// target.
pub proof fn lemma_first_crossing_exists(minf: int, maxf: int, target: int)
    requires
        MIN_FREQ as int <= minf <= maxf <= MAX_FREQ as int,
        spectrum_of(maxf) >= target,
    ensures
        exists|f: int| #[trigger] is_first_at_or_above(minf, maxf, target, f),
    decreases maxf - minf,
{
    if spectrum_of(minf) >= target {
        assert(is_first_at_or_above(minf, maxf, target, minf));
    } else {
        lemma_first_crossing_exists(minf + 1, maxf, target);
        let f = choose|f: int| #[trigger] is_first_at_or_above(minf + 1, maxf, target, f);
        assert(is_first_at_or_above(minf, maxf, target, f));
    }
}

/// The first crossing is unique: monotonicity leaves no second one.
pub proof fn lemma_first_crossing_unique(minf: int, maxf: int, target: int, f1: int, f2: int)
    requires
        MIN_FREQ as int <= minf <= maxf <= MAX_FREQ as int,
        is_first_at_or_above(minf, maxf, target, f1),
        is_first_at_or_above(minf, maxf, target, f2),
    ensures
        f1 == f2,
{
    if f1 < f2 {
        lemma_spectrum_monotone(f1, f2 - 1);
        assert(false);
    }
    if f2 < f1 {
        lemma_spectrum_monotone(f2, f1 - 1);
        assert(false);
    }
}

/// The spectrum map, as executable code.
pub fn spectrum_of_freq(f: i64) -> (r: i64)
    requires
        MIN_FREQ <= f <= MAX_FREQ,
    ensures
        r == spectrum_of(f as int),
{
    let xq: u128 = (f as u128) * MANTISSA_ONE / (ANCHOR_FREQ as u128);
    proof {
        lemma_div_is_ordered(
            (MIN_FREQ as int) * (MANTISSA_ONE as int),
            (f as int) * (MANTISSA_ONE as int),
            ANCHOR_FREQ as int,
        );
        lemma_div_is_ordered(
            (f as int) * (MANTISSA_ONE as int),
            (MAX_FREQ as int) * (MANTISSA_ONE as int),
            ANCHOR_FREQ as int,
        );
        assert((MIN_FREQ as int) * (MANTISSA_ONE as int) / (ANCHOR_FREQ as int) == (MANTISSA_ONE
            as int) / 2);
        assert((MAX_FREQ as int) * (MANTISSA_ONE as int) / (ANCHOR_FREQ as int) == 512
            * (MANTISSA_ONE as int));
    }
    let mut m: u128;
    let mut e: i64;
    if xq < MANTISSA_ONE {
        m = 2 * xq;
        e = -1;
    } else {
        m = xq;
        e = 0;
        proof {
            assert(pow2(0) == 1 && pow2(1) == 2 && pow2(41) == 2 * MANTISSA_ONE && pow2(49) == 512
                * MANTISSA_ONE) by {
                lemma2_to64();
                vstd::arithmetic::power2::lemma2_to64_rest();
            }
            assert((m as int) * pow2(0) == m as int) by (nonlinear_arith)
                requires
                    pow2(0) == 1,
            ;
        }
        while m >= 2 * MANTISSA_ONE
            invariant
                MANTISSA_ONE <= m,
                0 <= e <= 9,
                m * pow2(e as nat) <= xq,
                xq <= 512 * MANTISSA_ONE,
                spectrum_from(m as int, e as int) == spectrum_from(xq as int, 0),
            decreases m,
        {
            proof {
                lemma_pow2_adds(1, e as nat);
                lemma_pow2_adds(41, e as nat);
                assert(pow2(1) == 2 && pow2(41) == 2 * MANTISSA_ONE && pow2(49) == 512
                    * MANTISSA_ONE) by {
                    lemma2_to64();
                    vstd::arithmetic::power2::lemma2_to64_rest();
                }
                assert((m / 2) * (2 * pow2(e as nat)) <= m * pow2(e as nat)) by (nonlinear_arith)
                    requires
                        m >= 0,
                ;
                lemma_mul_inequality(
                    pow2(41) as int,
                    m as int,
                    pow2(e as nat) as int,
                );
                if e >= 9 {
                    vstd::arithmetic::power2::lemma_pow2_strictly_increases(
                        49,
                        (41 + e) as nat,
                    );
                    assert(false);
                }
            }
            m = m / 2;
            e = e + 1;
        }
    }
    proof {
        assert(MANTISSA_ONE <= m < 2 * MANTISSA_ONE);
    }
    let ghost m_start: int = m as int;
    let mut fb: u64 = 0;
    let mut j: u64 = 0;
    proof {
        assert(pow2(20) == FRAC_ONE && pow2(0) == 1) by {
            lemma2_to64();
        }
        assert(0 * pow2(FRAC_BITS as nat) == 0) by (nonlinear_arith);
    }
    while j < FRAC_BITS
        invariant
            MANTISSA_ONE <= m < 2 * MANTISSA_ONE,
            0 <= j <= FRAC_BITS,
            fb < pow2(j as nat),
            pow2(j as nat) <= pow2(20),
            pow2(20) == FRAC_ONE,
            frac_bits(m_start, FRAC_BITS as nat) == fb * pow2((FRAC_BITS - j) as nat)
                + frac_bits(m as int, (FRAC_BITS - j) as nat),
        decreases FRAC_BITS - j,
    {
        let ghost k: nat = (FRAC_BITS - j) as nat;
        let ghost m2i: int = (m as int) * (m as int) / (MANTISSA_ONE as int);
        proof {
            assert(m2i < 4 * (MANTISSA_ONE as int)) by (nonlinear_arith)
                requires
                    m2i == (m as int) * (m as int) / (MANTISSA_ONE as int) && 0 <= (m as int) < 2
                        * (MANTISSA_ONE as int),
            ;
            assert(m2i >= MANTISSA_ONE as int) by (nonlinear_arith)
                requires
                    m2i == (m as int) * (m as int) / (MANTISSA_ONE as int) && (m as int)
                        >= MANTISSA_ONE as int && MANTISSA_ONE > 0,
            ;
            lemma_pow2_adds(1, (k - 1) as nat);
            lemma_pow2_adds(1, j as nat);
            assert(pow2(1) == 2) by {
                lemma2_to64();
            }
            lemma_frac_bits_range(m2i / 2, (k - 1) as nat);
            lemma_frac_bits_range(m2i, (k - 1) as nat);
            if j + 1 < FRAC_BITS {
                vstd::arithmetic::power2::lemma_pow2_strictly_increases(
                    (j + 1) as nat,
                    FRAC_BITS as nat,
                );
            }
            assert((2 * (fb as int) + 1) * pow2((k - 1) as nat) == (fb as int) * (2 * pow2(
                (k - 1) as nat,
            )) + pow2((k - 1) as nat)) by (nonlinear_arith);
            assert((2 * (fb as int)) * pow2((k - 1) as nat) == (fb as int) * (2 * pow2(
                (k - 1) as nat,
            ))) by (nonlinear_arith);
        }
        let m2: u128 = m * m / MANTISSA_ONE;
        if m2 >= 2 * MANTISSA_ONE {
            fb = 2 * fb + 1;
            m = m2 / 2;
        } else {
            fb = 2 * fb;
            m = m2;
        }
        j = j + 1;
    }
    proof {
        assert((fb as int) * pow2(0) == fb as int) by (nonlinear_arith)
            requires
                pow2(0) == 1,
        ;
        assert(frac_bits(m_start, FRAC_BITS as nat) == fb as int);
    }
    let frac_part: i64 = ((fb as i64) * OCTAVE_STEP) / (FRAC_ONE as i64);
    (e + 1) * OCTAVE_STEP + frac_part
}

} // verus!
