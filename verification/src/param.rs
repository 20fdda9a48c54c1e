//! The [`Param`] trait and the linear [`FloatParam`] mapping.
//!
//! A parameter maps a range of real-world values onto the normalized
//! position space of a widget.  Values are fixed-point integers counted in
//! millionths of the parameter's natural unit, so a range of `-12.0 .. 12.0`
//! decibels is written `-12_000_000 .. 12_000_000`.

use crate::math::clamp;
use crate::math::lemma_div_in_range;
use crate::math::lemma_rescale_round_trip;
use crate::normal::Normal;
use crate::normal::UNIT;
use vstd::arithmetic::mul::lemma_mul_inequality;
use vstd::prelude::*;

verus! {

/// Half-width of the snap window: a mapped value that lands strictly
/// within this margin of the default value is replaced by the default,
/// so near-miss gestures land exactly on the default.
pub const SNAP_MARGIN: i64 = 1_000;

/// The normal corresponding to `v` under the affine map that sends
/// `[min, max]` onto `[0, UNIT]`; out-of-range values are clamped first.
pub open spec fn linear_value_to_normal(min: int, max: int, v: int) -> int {
    (clamp(v, min, max) - min) * (UNIT as int) / (max - min)
}

/// Snaps `raw` to `default` when it falls strictly within the snap margin.
pub open spec fn snap_to_default(raw: int, default: int) -> int {
    if default - SNAP_MARGIN < raw < default + SNAP_MARGIN {
        default
    } else {
        raw
    }
}

/// The value corresponding to normal `n` under the affine map from
/// `[0, UNIT]` onto `[min, max]`, snapped to the default value when the
/// result lands within the snap margin.
pub open spec fn linear_normal_to_value(min: int, max: int, default: int, n: int) -> int {
    snap_to_default(min + n * (max - min) / (UNIT as int), default)
}

/// A parameter that maps a range of values onto a [`Normal`], keyed by a
/// caller-supplied identifier.  Each parameter must have a unique
/// identifier value; uniqueness is the caller's contract.
pub trait Param: Sized {
    /// The caller-supplied identifier type.
    type ID;

    /// The identifier, at the specification level.
    spec fn spec_id(&self) -> Self::ID;

    /// The current normal in millionths, at the specification level.
    spec fn spec_normal(&self) -> int;

    /// The default normal in millionths, at the specification level.
    spec fn spec_default_normal(&self) -> int;

    /// Returns the unique identifier of the parameter.
    fn id(&self) -> (r: Self::ID)
        ensures
            r == self.spec_id(),
    ;

    /// Returns the current value of the parameter as a [`Normal`].
    fn normal(&self) -> (r: Normal)
        ensures
            r@ == self.spec_normal(),
    ;

    /// Returns the default value of the parameter as a [`Normal`].
    fn default_normal(&self) -> (r: Normal)
        ensures
            r@ == self.spec_default_normal(),
    ;
}

/// A [`Param`] over a continuous linear range of fixed-point values.
///
/// The mapping between values and normals is affine; a mapped value that
/// lands within [`SNAP_MARGIN`] of the default value snaps exactly to the
/// default, absorbing drag jitter around a meaningful resting point.
#[derive(Debug, Copy)]
pub struct FloatParam<ID: Copy> {
    id: ID,
    value: i64,
    default_value: i64,
    normal: i64,
    default_normal: i64,
    min: i64,
    max: i64,
}

impl<ID: Copy> Clone for FloatParam<ID> {
    fn clone(&self) -> (r: Self)
        ensures
            r == *self,
    {
        *self
    }
}

impl<ID: Copy> FloatParam<ID> {
    /// The lower bound of the value range, in millionths.
    pub closed spec fn spec_min(&self) -> int {
        self.min as int
    }

    /// The upper bound of the value range, in millionths.
    pub closed spec fn spec_max(&self) -> int {
        self.max as int
    }

    /// The current value, in millionths.
    pub closed spec fn spec_value(&self) -> int {
        self.value as int
    }

    /// The default value, in millionths.
    pub closed spec fn spec_default_value(&self) -> int {
        self.default_value as int
    }

    /// Everything a `FloatParam` maintains: a proper range, clamped value
    /// and default, and a normal that is mutually consistent with the
    /// value — whichever was set last determines the other.
    #[verifier::type_invariant]
    pub open spec fn wf(&self) -> bool {
        &&& self.spec_min() < self.spec_max()
        &&& self.spec_min() <= self.spec_value() <= self.spec_max()
        &&& self.spec_min() <= self.spec_default_value() <= self.spec_max()
        &&& 0 <= self.spec_normal() <= UNIT
        &&& 0 <= self.spec_default_normal() <= UNIT
        &&& self.spec_default_normal() == linear_value_to_normal(
            self.spec_min(),
            self.spec_max(),
            self.spec_default_value(),
        )
        &&& (self.spec_normal() == linear_value_to_normal(
            self.spec_min(),
            self.spec_max(),
            self.spec_value(),
        ) || self.spec_value() == linear_normal_to_value(
            self.spec_min(),
            self.spec_max(),
            self.spec_default_value(),
            self.spec_normal(),
        ))
    }

    /// The parameter after `set_from_value(v)`: a no-op when `v` equals
    /// the stored value, otherwise the clamped value with its recomputed
    /// normal.
    pub closed spec fn set_from_value_spec(self, v: int) -> Self {
        if self.value == v {
            self
        } else {
            let cv = clamp(v, self.min as int, self.max as int);
            FloatParam {
                value: cv as i64,
                normal: linear_value_to_normal(self.min as int, self.max as int, cv) as i64,
                ..self
            }
        }
    }

    /// The parameter after `set_from_normal(n)`: a no-op when `n` equals
    /// the stored normal, otherwise the stored normal becomes `n` and the
    /// value is recomputed from it.
    pub closed spec fn set_from_normal_spec(self, n: int) -> Self {
        if self.normal == n {
            self
        } else {
            FloatParam {
                value: linear_normal_to_value(
                    self.min as int,
                    self.max as int,
                    self.default_value as int,
                    n,
                ) as i64,
                normal: n as i64,
                ..self
            }
        }
    }

    /// Creates a new `FloatParam` over `[min, max]` with an initial and a
    /// default value, both clamped into the range.  All quantities are in
    /// millionths.
    pub fn new(id: ID, min: i64, max: i64, value: i64, default_value: i64) -> (r: Self)
        requires
            min < max,
        ensures
            r.spec_id() == id,
            r.spec_min() == min,
            r.spec_max() == max,
            r.spec_value() == clamp(value as int, min as int, max as int),
            r.spec_default_value() == clamp(default_value as int, min as int, max as int),
            r.spec_normal() == linear_value_to_normal(min as int, max as int, value as int),
            r.spec_default_normal() == linear_value_to_normal(
                min as int,
                max as int,
                default_value as int,
            ),
    {
        let v: i64 = constrain_i64(value, min, max);
        let dv: i64 = constrain_i64(default_value, min, max);
        let n: i64 = exec_linear_value_to_normal(min, max, v);
        let dn: i64 = exec_linear_value_to_normal(min, max, dv);
        proof {
            lemma_linear_value_to_normal_clamps(min as int, max as int, value as int);
            lemma_linear_value_to_normal_clamps(min as int, max as int, default_value as int);
        }
        FloatParam { id, value: v, default_value: dv, normal: n, default_normal: dn, min, max }
    }

    /// Sets the parameter's value to `value`, clamped into the range; the
    /// normal is recomputed.  A no-op when `value` equals the current
    /// value, so repeated updates cost nothing and emit no change.
    pub fn set_from_value(&mut self, value: i64)
        ensures
            *final(self) == old(self).set_from_value_spec(value as int),
            final(self).spec_min() == old(self).spec_min(),
            final(self).spec_max() == old(self).spec_max(),
            final(self).spec_id() == old(self).spec_id(),
            final(self).spec_default_value() == old(self).spec_default_value(),
            final(self).spec_default_normal() == old(self).spec_default_normal(),
            old(self).spec_value() == value ==> *final(self) == *old(self),
            old(self).spec_value() != value ==> {
                &&& final(self).spec_value() == clamp(
                    value as int,
                    old(self).spec_min(),
                    old(self).spec_max(),
                )
                &&& final(self).spec_normal() == linear_value_to_normal(
                    old(self).spec_min(),
                    old(self).spec_max(),
                    value as int,
                )
            },
    {
        proof {
            use_type_invariant(&*self);
        }
        if self.value != value {
            let v: i64 = constrain_i64(value, self.min, self.max);
            let n: i64 = exec_linear_value_to_normal(self.min, self.max, v);
            proof {
                lemma_linear_value_to_normal_clamps(
                    self.min as int,
                    self.max as int,
                    value as int,
                );
            }
            *self = FloatParam { value: v, normal: n, ..*self };
        }
    }

    /// Sets the parameter's value from a [`Normal`]; the value is
    /// recomputed from the normal, with snap-to-default applied.  A no-op
    /// when `normal` equals the current normal.
    pub fn set_from_normal(&mut self, normal: Normal)
        ensures
            *final(self) == old(self).set_from_normal_spec(normal@),
            final(self).spec_min() == old(self).spec_min(),
            final(self).spec_max() == old(self).spec_max(),
            final(self).spec_id() == old(self).spec_id(),
            final(self).spec_default_value() == old(self).spec_default_value(),
            final(self).spec_default_normal() == old(self).spec_default_normal(),
            old(self).spec_normal() == normal@ ==> *final(self) == *old(self),
            old(self).spec_normal() != normal@ ==> {
                &&& final(self).spec_normal() == normal@
                &&& final(self).spec_value() == linear_normal_to_value(
                    old(self).spec_min(),
                    old(self).spec_max(),
                    old(self).spec_default_value(),
                    normal@,
                )
            },
    {
        proof {
            use_type_invariant(&*self);
        }
        let n: i64 = normal.value();
        if self.normal != n {
            let v: i64 = exec_linear_normal_to_value(self.min, self.max, self.default_value, n);
            *self = FloatParam { value: v, normal: n, ..*self };
        }
    }

    /// Returns the parameter's current value, in millionths.
    pub fn value(&self) -> (r: i64)
        ensures
            r == self.spec_value(),
    {
        self.value
    }

    /// Returns the parameter's default value, in millionths.
    pub fn default_value(&self) -> (r: i64)
        ensures
            r == self.spec_default_value(),
    {
        self.default_value
    }

    /// Returns the [`Normal`] corresponding to `value` under this
    /// parameter's range; out-of-range values are clamped.
    pub fn value_to_normal(&self, value: i64) -> (r: Normal)
        ensures
            r@ == linear_value_to_normal(self.spec_min(), self.spec_max(), value as int),
    {
        proof {
            use_type_invariant(self);
        }
        let v: i64 = constrain_i64(value, self.min, self.max);
        let n: i64 = exec_linear_value_to_normal(self.min, self.max, v);
        proof {
            lemma_linear_value_to_normal_clamps(self.min as int, self.max as int, value as int);
        }
        Normal::new(n)
    }

    /// Returns the value corresponding to `normal` under this parameter's
    /// range, with snap-to-default applied.
    pub fn normal_to_value(&self, normal: Normal) -> (r: i64)
        ensures
            r == linear_normal_to_value(
                self.spec_min(),
                self.spec_max(),
                self.spec_default_value(),
                normal@,
            ),
    {
        proof {
            use_type_invariant(self);
        }
        let n: i64 = normal.value();
        exec_linear_normal_to_value(self.min, self.max, self.default_value, n)
    }

    /// Law: mapping an in-range value to its normal and back returns the
    /// value, up to one fixed-point step of the range, except where the
    /// snap window deliberately replaces values near the default.
    pub proof fn lemma_value_round_trip(p: Self, v: int)
        requires
            p.wf(),
            p.spec_min() <= v <= p.spec_max(),
        ensures
            ({
                let n = linear_value_to_normal(p.spec_min(), p.spec_max(), v);
                let rt = linear_normal_to_value(
                    p.spec_min(),
                    p.spec_max(),
                    p.spec_default_value(),
                    n,
                );
                let eps = (p.spec_max() - p.spec_min()) / (UNIT as int) + 1;
                &&& (v - eps <= rt <= v || rt == p.spec_default_value())
                &&& (rt == p.spec_default_value() ==> v - eps - SNAP_MARGIN < rt < v
                    + SNAP_MARGIN)
            }),
    {
        let minv = p.spec_min();
        let maxv = p.spec_max();
        let d = maxv - minv;
        let a = v - minv;
        let ui = UNIT as int;
        assert(clamp(v, minv, maxv) == v);
        lemma_rescale_round_trip(a, d, ui);
        let raw = minv + (a * ui / d) * d / ui;
        assert(v - ((d / ui) + 1) <= raw <= v);
    }

    /// Law: setting the same normal twice changes the parameter once; the
    /// second application is the identity.
    pub proof fn lemma_set_from_normal_idempotent(p: Self, n: int)
        ensures
            p.set_from_normal_spec(n).set_from_normal_spec(n) == p.set_from_normal_spec(n),
    {
    }

    /// Law: setting the same value twice changes the parameter once; the
    /// second application is the identity.
    pub proof fn lemma_set_from_value_idempotent(p: Self, v: int)
        requires
            p.wf(),
        ensures
            p.set_from_value_spec(v).set_from_value_spec(v) == p.set_from_value_spec(v),
    {
        let q = p.set_from_value_spec(v);
        if p.value != v && q.value != v {
            assert(clamp(v, p.min as int, p.max as int) == q.value as int);
        }
    }
}

impl<ID: Copy> Param for FloatParam<ID> {
    type ID = ID;

    closed spec fn spec_id(&self) -> ID {
        self.id
    }

    closed spec fn spec_normal(&self) -> int {
        self.normal as int
    }

    closed spec fn spec_default_normal(&self) -> int {
        self.default_normal as int
    }

    fn id(&self) -> (r: ID)
        ensures
            r == self.spec_id(),
    {
        self.id
    }

    fn normal(&self) -> (r: Normal)
        ensures
            r@ == self.spec_normal(),
    {
        proof {
            use_type_invariant(self);
        }
        Normal::new(self.normal)
    }

    fn default_normal(&self) -> (r: Normal)
        ensures
            r@ == self.spec_default_normal(),
    {
        proof {
            use_type_invariant(self);
        }
        Normal::new(self.default_normal)
    }
}

/// Clamps a value into `[min, max]`, as executable code.
pub(crate) fn constrain_i64(value: i64, min: i64, max: i64) -> (r: i64)
    requires
        min < max,
    ensures
        r == clamp(value as int, min as int, max as int),
{
    if value <= min {
        min
    } else if value >= max {
        max
    } else {
        value
    }
}

/// Clamping the input first changes nothing: the affine map clamps its
/// result into `[0, UNIT]` either way.
pub(crate) proof fn lemma_linear_value_to_normal_clamps(min: int, max: int, v: int)
    requires
        min < max,
    ensures
        linear_value_to_normal(min, max, clamp(v, min, max)) == linear_value_to_normal(
            min,
            max,
            v,
        ),
{
}

/// The affine value-to-normal map, as executable code.
pub(crate) fn exec_linear_value_to_normal(min: i64, max: i64, v: i64) -> (r: i64)
    requires
        min < max,
        min <= v <= max,
    ensures
        r == linear_value_to_normal(min as int, max as int, v as int),
        0 <= r <= UNIT,
{
    let a: u128 = (v as i128 - min as i128) as u128;
    let d: u128 = (max as i128 - min as i128) as u128;
    proof {
        assert(a * (UNIT as u128) <= 0xFFFF_FFFF_FFFF_FFFFu128 * (UNIT as u128))
            by (nonlinear_arith)
            requires
                a <= 0xFFFF_FFFF_FFFF_FFFFu128,
        ;
        lemma_mul_inequality(a as int, d as int, UNIT as int);
        lemma_div_in_range((a * (UNIT as u128)) as int, d as int, UNIT as int);
    }
    let q: u128 = a * (UNIT as u128) / d;
    q as i64
}

/// The affine normal-to-value map with snap-to-default, as executable
/// code.
pub(crate) fn exec_linear_normal_to_value(min: i64, max: i64, default: i64, n: i64) -> (r: i64)
    requires
        min < max,
        min <= default <= max,
        0 <= n <= UNIT,
    ensures
        r == linear_normal_to_value(min as int, max as int, default as int, n as int),
        min <= r <= max,
{
    let d: u128 = (max as i128 - min as i128) as u128;
    proof {
        assert((n as u128) * d <= (UNIT as u128) * 0xFFFF_FFFF_FFFF_FFFFu128)
            by (nonlinear_arith)
            requires
                n <= UNIT && d <= 0xFFFF_FFFF_FFFF_FFFFu128 && 0 <= n,
        ;
        lemma_mul_inequality(n as int, UNIT as int, d as int);
        lemma_div_in_range(((n as u128) * d) as int, UNIT as int, d as int);
    }
    let off: u128 = (n as u128) * d / (UNIT as u128);
    let raw: i64 = ((min as i128) + off as i128) as i64;
    if (raw as i128) > (default as i128) - (SNAP_MARGIN as i128) && (raw as i128) < (default
        as i128) + (SNAP_MARGIN as i128) {
        default
    } else {
        raw
    }
}

} // verus!
