//! The logarithmic [`OctaveParam`] frequency mapping.

use crate::math::clamp;
use crate::math::lemma_div_in_range;
use crate::math::lemma_rescale_round_trip;
use crate::normal::Normal;
use crate::normal::UNIT;
use crate::param::Param;
use crate::spectrum::is_first_at_or_above;
use crate::spectrum::lemma_first_crossing_exists;
use crate::spectrum::lemma_first_crossing_unique;
use crate::spectrum::lemma_spectrum_in_range;
use crate::spectrum::lemma_spectrum_monotone;
use crate::spectrum::spectrum_of;
use crate::spectrum::spectrum_of_freq;
use crate::spectrum::MAX_FREQ;
use crate::spectrum::MIN_FREQ;
use vstd::arithmetic::div_mod::lemma_div_multiples_vanish;
use vstd::arithmetic::div_mod::lemma_div_pos_is_pos;
use vstd::arithmetic::div_mod::lemma_div_is_ordered;
use vstd::arithmetic::div_mod::lemma_div_of0;
use vstd::arithmetic::div_mod::lemma_fundamental_div_mod;
use vstd::arithmetic::div_mod::lemma_hoist_over_denominator;
use vstd::arithmetic::div_mod::lemma_mod_division_less_than_divisor;
use vstd::arithmetic::mul::lemma_mul_inequality;
use vstd::prelude::*;

verus! {

/// The normal corresponding to frequency `v` under this range: the
/// spectrum position of `v`, rescaled from the spectrum window of
/// `[min, max]` onto `[0, UNIT]`.  Out-of-range frequencies are clamped;
/// a window too narrow for the spectrum's resolution collapses to zero.
pub open spec fn octave_value_to_normal(min: int, max: int, v: int) -> int {
    let smin = spectrum_of(min);
    let srange = spectrum_of(max) - smin;
    if srange <= 0 {
        0
    } else {
        (spectrum_of(clamp(v, min, max)) - smin) * (UNIT as int) / srange
    }
}

/// The spectrum position that normal `n` points at inside the window of
/// `[min, max]`.
pub open spec fn octave_inverse_target(min: int, max: int, n: int) -> int {
    spectrum_of(min) + n * (spectrum_of(max) - spectrum_of(min)) / (UNIT as int)
}

/// The frequency corresponding to normal `n`: the first frequency in
/// `[min, max]` whose spectrum position reaches the rescaled target, the
/// inverse of [`octave_value_to_normal`].  The top of the normal range
/// maps to `max` exactly.
pub open spec fn octave_normal_to_value(min: int, max: int, n: int) -> int {
    if spectrum_of(max) - spectrum_of(min) <= 0 {
        min
    } else if n >= UNIT {
        max
    } else {
        choose|f: int|
            #[trigger] is_first_at_or_above(min, max, octave_inverse_target(min, max, n), f)
    }
}

/// A [`Param`] over a continuous logarithmic range of frequencies, with
/// each octave of the ten-octave audio spectrum spaced evenly.
///
/// Smaller frequencies change slower per unit of slider movement than
/// larger ones.  The range is clamped into the physical spectrum of
/// 20 Hz to 20480 Hz regardless of what the caller requests.
#[derive(Debug, Copy)]
pub struct OctaveParam<ID: Copy> {
    id: ID,
    value: i64,
    default_value: i64,
    normal: i64,
    default_normal: i64,
    min_spectrum: i64,
    spectrum_range: i64,
    min: i64,
    max: i64,
}

impl<ID: Copy> Clone for OctaveParam<ID> {
    fn clone(&self) -> (r: Self)
        ensures
            r == *self,
    {
        *self
    }
}

impl<ID: Copy> OctaveParam<ID> {
    /// The lower bound of the range in micro-hertz, inside the spectrum.
    pub closed spec fn spec_min(&self) -> int {
        self.min as int
    }

    /// The upper bound of the range in micro-hertz, inside the spectrum.
    pub closed spec fn spec_max(&self) -> int {
        self.max as int
    }

    /// The current frequency in micro-hertz.
    pub closed spec fn spec_value(&self) -> int {
        self.value as int
    }

    /// The default frequency in micro-hertz.
    pub closed spec fn spec_default_value(&self) -> int {
        self.default_value as int
    }

    /// The cached spectrum position of the lower bound.
    pub closed spec fn spec_min_spectrum(&self) -> int {
        self.min_spectrum as int
    }

    /// The cached width of the range's spectrum window.
    pub closed spec fn spec_spectrum_range(&self) -> int {
        self.spectrum_range as int
    }

    /// Everything an `OctaveParam` maintains: a range inside the
    /// physical spectrum, clamped value and default, correct cached
    /// spectrum window, and a normal that is mutually consistent with
    /// the value.
    #[verifier::type_invariant]
    pub open spec fn wf(&self) -> bool {
        &&& MIN_FREQ as int <= self.spec_min() <= self.spec_max() <= MAX_FREQ as int
        &&& self.spec_min() <= self.spec_value() <= self.spec_max()
        &&& self.spec_min() <= self.spec_default_value() <= self.spec_max()
        &&& 0 <= self.spec_normal() <= UNIT
        &&& 0 <= self.spec_default_normal() <= UNIT
        &&& self.spec_min_spectrum() == spectrum_of(self.spec_min())
        &&& self.spec_spectrum_range() == spectrum_of(self.spec_max()) - spectrum_of(
            self.spec_min(),
        )
        &&& self.spec_default_normal() == octave_value_to_normal(
            self.spec_min(),
            self.spec_max(),
            self.spec_default_value(),
        )
        &&& (self.spec_normal() == octave_value_to_normal(
            self.spec_min(),
            self.spec_max(),
            self.spec_value(),
        ) || self.spec_value() == octave_normal_to_value(
            self.spec_min(),
            self.spec_max(),
            self.spec_normal(),
        ))
    }

    /// The parameter after `set_from_value(v)`.
    pub closed spec fn set_from_value_spec(self, v: int) -> Self {
        if self.value == v {
            self
        } else {
            let cv = clamp(v, self.min as int, self.max as int);
            OctaveParam {
                value: cv as i64,
                normal: octave_value_to_normal(self.min as int, self.max as int, cv) as i64,
                ..self
            }
        }
    }

    /// The parameter after `set_from_normal(n)`.
    pub closed spec fn set_from_normal_spec(self, n: int) -> Self {
        if self.normal == n {
            self
        } else {
            OctaveParam {
                value: octave_normal_to_value(self.min as int, self.max as int, n) as i64,
                normal: n as i64,
                ..self
            }
        }
    }

    /// Creates a new `OctaveParam` over `[min, max]` micro-hertz with an
    /// initial and a default frequency.  The bounds are clamped into the
    /// physical spectrum of 20 Hz to 20480 Hz — wider requests are
    /// silently narrowed — and the value and default are clamped into
    /// the resulting range.
    pub fn new(id: ID, min: i64, max: i64, value: i64, default_value: i64) -> (r: Self)
        requires
            min < max,
        ensures
            r.spec_id() == id,
            r.spec_min() == clamp(min as int, MIN_FREQ as int, MAX_FREQ as int),
            r.spec_max() == clamp(max as int, MIN_FREQ as int, MAX_FREQ as int),
            r.spec_value() == clamp(value as int, r.spec_min(), r.spec_max()),
            r.spec_default_value() == clamp(default_value as int, r.spec_min(), r.spec_max()),
            r.spec_min_spectrum() == spectrum_of(r.spec_min()),
            r.spec_spectrum_range() == spectrum_of(r.spec_max()) - spectrum_of(r.spec_min()),
            r.spec_normal() == octave_value_to_normal(r.spec_min(), r.spec_max(), r.spec_value()),
            r.spec_default_normal() == octave_value_to_normal(
                r.spec_min(),
                r.spec_max(),
                r.spec_default_value(),
            ),
    {
        let min_c: i64 = clamp_freq(min);
        let max_c: i64 = clamp_freq(max);
        let smin: i64 = spectrum_of_freq(min_c);
        let smax: i64 = spectrum_of_freq(max_c);
        proof {
            lemma_spectrum_monotone(min_c as int, max_c as int);
            lemma_spectrum_in_range(min_c as int);
            lemma_spectrum_in_range(max_c as int);
        }
        let srange: i64 = smax - smin;
        let v: i64 = constrain_freq(value, min_c, max_c);
        let dv: i64 = constrain_freq(default_value, min_c, max_c);
        let n: i64 = exec_octave_value_to_normal(min_c, max_c, smin, srange, v);
        let dn: i64 = exec_octave_value_to_normal(min_c, max_c, smin, srange, dv);
        OctaveParam {
            id,
            value: v,
            default_value: dv,
            normal: n,
            default_normal: dn,
            min_spectrum: smin,
            spectrum_range: srange,
            min: min_c,
            max: max_c,
        }
    }

    /// Sets the parameter's frequency to `value`, clamped into the
    /// range; the normal is recomputed.  A no-op when `value` equals the
    /// current frequency.
    pub fn set_from_value(&mut self, value: i64)
        ensures
            *final(self) == old(self).set_from_value_spec(value as int),
            final(self).spec_min() == old(self).spec_min(),
            final(self).spec_max() == old(self).spec_max(),
            final(self).spec_id() == old(self).spec_id(),
            final(self).spec_default_value() == old(self).spec_default_value(),
            final(self).spec_default_normal() == old(self).spec_default_normal(),
            old(self).spec_value() == value ==> *final(self) == *old(self),
            old(self).spec_value() != value ==> {
                &&& final(self).spec_value() == clamp(
                    value as int,
                    old(self).spec_min(),
                    old(self).spec_max(),
                )
                &&& final(self).spec_normal() == octave_value_to_normal(
                    old(self).spec_min(),
                    old(self).spec_max(),
                    final(self).spec_value(),
                )
            },
    {
        proof {
            use_type_invariant(&*self);
        }
        if self.value != value {
            let v: i64 = constrain_freq(value, self.min, self.max);
            let n: i64 = exec_octave_value_to_normal(
                self.min,
                self.max,
                self.min_spectrum,
                self.spectrum_range,
                v,
            );
            *self = OctaveParam { value: v, normal: n, ..*self };
        }
    }

    /// Sets the parameter's frequency from a [`Normal`]; the frequency
    /// is recomputed from the normal.  A no-op when `normal` equals the
    /// stored normal.
    pub fn set_from_normal(&mut self, normal: Normal)
        ensures
            *final(self) == old(self).set_from_normal_spec(normal@),
            final(self).spec_min() == old(self).spec_min(),
            final(self).spec_max() == old(self).spec_max(),
            final(self).spec_id() == old(self).spec_id(),
            final(self).spec_default_value() == old(self).spec_default_value(),
            final(self).spec_default_normal() == old(self).spec_default_normal(),
            old(self).spec_normal() == normal@ ==> *final(self) == *old(self),
            old(self).spec_normal() != normal@ ==> {
                &&& final(self).spec_normal() == normal@
                &&& final(self).spec_value() == octave_normal_to_value(
                    old(self).spec_min(),
                    old(self).spec_max(),
                    normal@,
                )
            },
    {
        proof {
            use_type_invariant(&*self);
        }
        let n: i64 = normal.value();
        if self.normal != n {
            let v: i64 = exec_octave_normal_to_value(
                self.min,
                self.max,
                self.min_spectrum,
                self.spectrum_range,
                n,
            );
            *self = OctaveParam { value: v, normal: n, ..*self };
        }
    }

    /// Returns the parameter's current frequency, in micro-hertz.
    pub fn value(&self) -> (r: i64)
        ensures
            r == self.spec_value(),
    {
        self.value
    }

    /// Returns the parameter's default frequency, in micro-hertz.
    pub fn default_value(&self) -> (r: i64)
        ensures
            r == self.spec_default_value(),
    {
        self.default_value
    }

    /// Returns the [`Normal`] corresponding to frequency `value`;
    /// out-of-range frequencies are clamped.
    pub fn value_to_normal(&self, value: i64) -> (r: Normal)
        ensures
            r@ == octave_value_to_normal(self.spec_min(), self.spec_max(), value as int),
    {
        proof {
            use_type_invariant(self);
        }
        let v: i64 = constrain_freq(value, self.min, self.max);
        let n: i64 = exec_octave_value_to_normal(
            self.min,
            self.max,
            self.min_spectrum,
            self.spectrum_range,
            v,
        );
        Normal::new(n)
    }

    /// Returns the frequency corresponding to `normal`.
    pub fn normal_to_value(&self, normal: Normal) -> (r: i64)
        ensures
            r == octave_normal_to_value(self.spec_min(), self.spec_max(), normal@),
            self.spec_min() <= r <= self.spec_max(),
    {
        proof {
            use_type_invariant(self);
        }
        let n: i64 = normal.value();
        exec_octave_normal_to_value(self.min, self.max, self.min_spectrum, self.spectrum_range, n)
    }

    /// Law: the range ends map to the ends of the normal range — the
    /// lower bound to zero always, the upper bound to the top whenever
    /// the range is wide enough for the spectrum to tell the ends apart.
    pub proof fn lemma_edges(p: Self)
        requires
            p.wf(),
        ensures
            octave_value_to_normal(p.spec_min(), p.spec_max(), p.spec_min()) == 0,
            p.spec_spectrum_range() > 0 ==> octave_value_to_normal(
                p.spec_min(),
                p.spec_max(),
                p.spec_max(),
            ) == UNIT,
    {
        let minv = p.spec_min();
        let maxv = p.spec_max();
        let smin = spectrum_of(minv);
        let srange = spectrum_of(maxv) - smin;
        if srange > 0 {
            lemma_div_of0(srange);
            assert((smin - smin) * (UNIT as int) == 0) by (nonlinear_arith);
            lemma_div_multiples_vanish(UNIT as int, srange);
            assert(srange * (UNIT as int) == (spectrum_of(maxv) - smin) * (UNIT as int));
        }
    }

    /// Law: the ends of the range invert exactly whenever the range is
    /// wide enough for the spectrum to tell them apart.
    pub proof fn lemma_round_trip_at_ends(p: Self)
        requires
            p.wf(),
            p.spec_spectrum_range() > 0,
        ensures
            octave_normal_to_value(
                p.spec_min(),
                p.spec_max(),
                octave_value_to_normal(p.spec_min(), p.spec_max(), p.spec_min()),
            ) == p.spec_min(),
            octave_normal_to_value(
                p.spec_min(),
                p.spec_max(),
                octave_value_to_normal(p.spec_min(), p.spec_max(), p.spec_max()),
            ) == p.spec_max(),
    {
        let minv = p.spec_min();
        let maxv = p.spec_max();
        let smin = spectrum_of(minv);
        let srange = spectrum_of(maxv) - smin;
        Self::lemma_edges(p);
        assert(octave_inverse_target(minv, maxv, 0) == smin) by {
            assert(0 * srange == 0) by (nonlinear_arith);
            lemma_div_of0(UNIT as int);
        }
        assert(is_first_at_or_above(minv, maxv, smin, minv));
        lemma_first_crossing_exists(minv, maxv, smin);
        let w = choose|f: int| #[trigger] is_first_at_or_above(minv, maxv, smin, f);
        lemma_first_crossing_unique(minv, maxv, smin, w, minv);
    }

    /// Law: a full round trip through the normal space never raises the
    /// spectrum position and lowers it by at most one rescaling step:
    /// the frequency read back from `value_to_normal(v)` sits in range,
    /// at or just below `v` on the octave scale.
    pub proof fn lemma_round_trip_spectrum(p: Self, v: int)
        requires
            p.wf(),
            p.spec_min() <= v <= p.spec_max(),
            p.spec_spectrum_range() > 0,
        ensures
            ({
                let minv = p.spec_min();
                let maxv = p.spec_max();
                let n = octave_value_to_normal(minv, maxv, v);
                let v2 = octave_normal_to_value(minv, maxv, n);
                let step = (spectrum_of(maxv) - spectrum_of(minv)) / (UNIT as int) + 1;
                &&& minv <= v2 <= maxv
                &&& spectrum_of(v) - step <= spectrum_of(v2) <= spectrum_of(v)
            }),
    {
        let ui = UNIT as int;
        let minv = p.spec_min();
        let maxv = p.spec_max();
        let smin = spectrum_of(minv);
        let smax = spectrum_of(maxv);
        let srange = smax - smin;
        lemma_spectrum_monotone(minv, v);
        lemma_spectrum_monotone(v, maxv);
        let sv = spectrum_of(v);
        let a = sv - smin;
        assert(clamp(v, minv, maxv) == v);
        let n = a * ui / srange;
        lemma_mul_inequality(a, srange, ui);
        lemma_div_in_range(a * ui, srange, ui);
        if n == ui {
            if a < srange {
                lemma_mul_inequality(a, srange - 1, ui);
                lemma_div_is_ordered(a * ui, (srange - 1) * ui, srange);
                lemma_hoist_over_denominator(-ui, ui, srange as nat);
                assert((srange - 1) * ui == -ui + ui * srange) by (nonlinear_arith);
                lemma_fundamental_div_mod(-ui, srange);
                lemma_mod_division_less_than_divisor(-ui, srange);
                let qq = (-ui) / srange;
                let rr = (-ui) % srange;
                assert(qq <= -1) by (nonlinear_arith)
                    requires
                        -ui == srange * qq + rr && 0 <= rr < srange && ui >= 1 && srange >= 1,
                ;
                assert(false);
            }
            assert(sv == smax);
        } else {
            let target = octave_inverse_target(minv, maxv, n);
            lemma_rescale_round_trip(a, srange, ui);
            assert(target <= sv);
            lemma_first_crossing_exists(minv, maxv, target);
            let v2 = octave_normal_to_value(minv, maxv, n);
            assert(is_first_at_or_above(minv, maxv, target, v2));
            if v2 > v {
                lemma_spectrum_monotone(v, v2 - 1);
                assert(false);
            }
            lemma_spectrum_monotone(v2, v);
        }
    }

    /// Law: setting the same normal twice changes the parameter once;
    /// the second application is the identity.
    pub proof fn lemma_set_from_normal_idempotent(p: Self, n: int)
        requires
            p.wf(),
            0 <= n <= UNIT,
        ensures
            p.set_from_normal_spec(n).set_from_normal_spec(n) == p.set_from_normal_spec(n),
    {
    }

    /// Law: setting the same frequency twice changes the parameter once;
    /// the second application is the identity.
    pub proof fn lemma_set_from_value_idempotent(p: Self, v: int)
        requires
            p.wf(),
        ensures
            p.set_from_value_spec(v).set_from_value_spec(v) == p.set_from_value_spec(v),
    {
        let q = p.set_from_value_spec(v);
        if p.value != v && q.value != v {
            assert(clamp(v, p.min as int, p.max as int) == q.value as int);
        }
    }
}

impl<ID: Copy> Param for OctaveParam<ID> {
    type ID = ID;

    closed spec fn spec_id(&self) -> ID {
        self.id
    }

    closed spec fn spec_normal(&self) -> int {
        self.normal as int
    }

    closed spec fn spec_default_normal(&self) -> int {
        self.default_normal as int
    }

    fn id(&self) -> (r: ID)
        ensures
            r == self.spec_id(),
    {
        self.id
    }

    fn normal(&self) -> (r: Normal)
        ensures
            r@ == self.spec_normal(),
    {
        proof {
            use_type_invariant(self);
        }
        Normal::new(self.normal)
    }

    fn default_normal(&self) -> (r: Normal)
        ensures
            r@ == self.spec_default_normal(),
    {
        proof {
            use_type_invariant(self);
        }
        Normal::new(self.default_normal)
    }
}

/// Clamps a frequency into the physical spectrum.
fn clamp_freq(f: i64) -> (r: i64)
    ensures
        r == clamp(f as int, MIN_FREQ as int, MAX_FREQ as int),
{
    if f <= MIN_FREQ {
        MIN_FREQ
    } else if f >= MAX_FREQ {
        MAX_FREQ
    } else {
        f
    }
}

/// Clamps a frequency into `[min, max]`; the bounds may coincide.
fn constrain_freq(f: i64, min: i64, max: i64) -> (r: i64)
    requires
        min <= max,
    ensures
        r == clamp(f as int, min as int, max as int),
{
    if f <= min {
        min
    } else if f >= max {
        max
    } else {
        f
    }
}

/// The octave value-to-normal map, as executable code.
fn exec_octave_value_to_normal(min: i64, max: i64, smin: i64, srange: i64, v: i64) -> (r: i64)
    requires
        MIN_FREQ as int <= min <= max <= MAX_FREQ as int,
        min <= v <= max,
        smin == spectrum_of(min as int),
        srange == spectrum_of(max as int) - spectrum_of(min as int),
    ensures
        r == octave_value_to_normal(min as int, max as int, v as int),
        0 <= r <= UNIT,
{
    if srange <= 0 {
        0
    } else {
        let sv: i64 = spectrum_of_freq(v);
        proof {
            lemma_spectrum_monotone(min as int, v as int);
            lemma_spectrum_monotone(v as int, max as int);
            lemma_spectrum_in_range(min as int);
            lemma_spectrum_in_range(max as int);
            lemma_mul_inequality(sv - smin, srange as int, UNIT as int);
            lemma_div_in_range(
                (sv - smin) * (UNIT as int),
                srange as int,
                UNIT as int,
            );
            assert(clamp(v as int, min as int, max as int) == v as int);
        }
        let num: u64 = ((sv - smin) as u64) * (UNIT as u64);
        (num / (srange as u64)) as i64
    }
}

/// The octave normal-to-value map, as executable code: a binary search
/// for the first frequency whose spectrum position reaches the target.
fn exec_octave_normal_to_value(min: i64, max: i64, smin: i64, srange: i64, n: i64) -> (r: i64)
    requires
        MIN_FREQ as int <= min <= max <= MAX_FREQ as int,
        0 <= n <= UNIT,
        smin == spectrum_of(min as int),
        srange == spectrum_of(max as int) - spectrum_of(min as int),
    ensures
        r == octave_normal_to_value(min as int, max as int, n as int),
        min <= r <= max,
{
    if srange <= 0 {
        min
    } else if n == UNIT {
        max
    } else {
        proof {
            lemma_spectrum_in_range(min as int);
            lemma_spectrum_in_range(max as int);
            lemma_mul_inequality(n as int, UNIT as int, srange as int);
            lemma_div_in_range((n as int) * (srange as int), UNIT as int, srange as int);
            lemma_div_pos_is_pos((n as int) * (srange as int), UNIT as int);
        }
        let off: u64 = ((n as u64) * (srange as u64)) / (UNIT as u64);
        let target: i64 = smin + (off as i64);
        let ghost tgt: int = octave_inverse_target(min as int, max as int, n as int);
        proof {
            assert(target == tgt);
        }
        if smin >= target {
            proof {
                assert(is_first_at_or_above(min as int, max as int, tgt, min as int));
                lemma_first_crossing_exists(min as int, max as int, tgt);
                let w = choose|f: int|
                    #[trigger] is_first_at_or_above(min as int, max as int, tgt, f);
                lemma_first_crossing_unique(min as int, max as int, tgt, w, min as int);
            }
            min
        } else {
            let mut lo: i64 = min;
            let mut hi: i64 = max;
            while lo + 1 < hi
                invariant
                    MIN_FREQ as int <= min <= lo < hi <= max <= MAX_FREQ as int,
                    target == tgt,
                    spectrum_of(lo as int) < tgt,
                    spectrum_of(hi as int) >= tgt,
                decreases hi - lo,
            {
                let mid: i64 = lo + (hi - lo) / 2;
                let smid: i64 = spectrum_of_freq(mid);
                if smid >= target {
                    hi = mid;
                } else {
                    lo = mid;
                }
            }
            proof {
                assert(is_first_at_or_above(min as int, max as int, tgt, hi as int));
                lemma_first_crossing_exists(min as int, max as int, tgt);
                let w = choose|f: int|
                    #[trigger] is_first_at_or_above(min as int, max as int, tgt, f);
                lemma_first_crossing_unique(min as int, max as int, tgt, w, hi as int);
            }
            hi
        }
    }
}

} // verus!
