//! The discrete [`IntParam`] mapping.

use crate::math::clamp;
use crate::math::lemma_round_div_in_range;
use crate::math::round_div;
use crate::normal::Normal;
use crate::normal::UNIT;
use crate::param::Param;
use vstd::arithmetic::div_mod::lemma_basic_div;
use vstd::arithmetic::div_mod::lemma_fundamental_div_mod;
use vstd::arithmetic::div_mod::lemma_hoist_over_denominator;
use vstd::arithmetic::div_mod::lemma_mod_division_less_than_divisor;
use vstd::arithmetic::mul::lemma_mul_inequality;
use vstd::prelude::*;

verus! {

/// The normal corresponding to integer step `v` under the affine map that
/// sends `[min, max]` onto `[0, UNIT]`, rounded to the nearest millionth,
/// halves up; out-of-range values are clamped first.
pub open spec fn int_value_to_normal(min: int, max: int, v: int) -> int {
    round_div((clamp(v, min, max) - min) * (UNIT as int), max - min)
}

/// The integer step corresponding to normal `n`: the affine image of `n`
/// in `[min, max]`, rounded to the nearest whole step, halves up.
pub open spec fn int_normal_to_value(min: int, max: int, n: int) -> int {
    min + round_div(n * (max - min), UNIT as int)
}

/// A [`Param`] over a discrete linear range of `i32` steps.
///
/// Setting the parameter from a normal first rounds to the nearest
/// integer step and then recomputes the canonical normal of that step, so
/// every raw normal collapses to the one normal that represents its step.
#[derive(Debug, Copy)]
pub struct IntParam<ID: Copy> {
    id: ID,
    value: i32,
    default_value: i32,
    normal: i64,
    default_normal: i64,
    min: i32,
    max: i32,
}

impl<ID: Copy> Clone for IntParam<ID> {
    fn clone(&self) -> (r: Self)
        ensures
            r == *self,
    {
        *self
    }
}

impl<ID: Copy> IntParam<ID> {
    /// The lower bound of the step range.
    pub closed spec fn spec_min(&self) -> int {
        self.min as int
    }

    /// The upper bound of the step range.
    pub closed spec fn spec_max(&self) -> int {
        self.max as int
    }

    /// The current step.
    pub closed spec fn spec_value(&self) -> int {
        self.value as int
    }

    /// The default step.
    pub closed spec fn spec_default_value(&self) -> int {
        self.default_value as int
    }

    /// Everything an `IntParam` maintains: a proper range, clamped value
    /// and default, and normals that are always the canonical normal of
    /// the stored step.
    #[verifier::type_invariant]
    pub open spec fn wf(&self) -> bool {
        &&& self.spec_min() < self.spec_max()
        &&& self.spec_min() <= self.spec_value() <= self.spec_max()
        &&& self.spec_min() <= self.spec_default_value() <= self.spec_max()
        &&& 0 <= self.spec_normal() <= UNIT
        &&& 0 <= self.spec_default_normal() <= UNIT
        &&& self.spec_normal() == int_value_to_normal(
            self.spec_min(),
            self.spec_max(),
            self.spec_value(),
        )
        &&& self.spec_default_normal() == int_value_to_normal(
            self.spec_min(),
            self.spec_max(),
            self.spec_default_value(),
        )
    }

    /// The parameter after `set_from_value(v)`: a no-op when `v` equals
    /// the stored step, otherwise the clamped step with its canonical
    /// normal.
    pub closed spec fn set_from_value_spec(self, v: int) -> Self {
        if self.value == v {
            self
        } else {
            let cv = clamp(v, self.min as int, self.max as int);
            IntParam {
                value: cv as i32,
                normal: int_value_to_normal(self.min as int, self.max as int, cv) as i64,
                ..self
            }
        }
    }

    /// The parameter after `set_from_normal(n)`: a no-op when `n` equals
    /// the stored normal, otherwise the step nearest to `n` with its
    /// canonical normal.
    pub closed spec fn set_from_normal_spec(self, n: int) -> Self {
        if self.normal == n {
            self
        } else {
            let v = clamp(
                int_normal_to_value(self.min as int, self.max as int, n),
                self.min as int,
                self.max as int,
            );
            IntParam {
                value: v as i32,
                normal: int_value_to_normal(self.min as int, self.max as int, v) as i64,
                ..self
            }
        }
    }

    /// Creates a new `IntParam` over the steps `[min, max]` with an
    /// initial and a default step, both clamped into the range.
    pub fn new(id: ID, min: i32, max: i32, value: i32, default_value: i32) -> (r: Self)
        requires
            min < max,
        ensures
            r.spec_id() == id,
            r.spec_min() == min,
            r.spec_max() == max,
            r.spec_value() == clamp(value as int, min as int, max as int),
            r.spec_default_value() == clamp(default_value as int, min as int, max as int),
            r.spec_normal() == int_value_to_normal(min as int, max as int, value as int),
            r.spec_default_normal() == int_value_to_normal(
                min as int,
                max as int,
                default_value as int,
            ),
    {
        let v: i32 = constrain_i32(value, min, max);
        let dv: i32 = constrain_i32(default_value, min, max);
        let n: i64 = exec_int_value_to_normal(min, max, v);
        let dn: i64 = exec_int_value_to_normal(min, max, dv);
        proof {
            lemma_int_value_to_normal_clamps(min as int, max as int, value as int);
            lemma_int_value_to_normal_clamps(min as int, max as int, default_value as int);
        }
        IntParam { id, value: v, default_value: dv, normal: n, default_normal: dn, min, max }
    }

    /// Sets the parameter's step to `value`, clamped into the range; the
    /// canonical normal is recomputed.  A no-op when `value` equals the
    /// current step.
    pub fn set_from_value(&mut self, value: i32)
        ensures
            *final(self) == old(self).set_from_value_spec(value as int),
            final(self).spec_min() == old(self).spec_min(),
            final(self).spec_max() == old(self).spec_max(),
            final(self).spec_id() == old(self).spec_id(),
            final(self).spec_default_value() == old(self).spec_default_value(),
            final(self).spec_default_normal() == old(self).spec_default_normal(),
            old(self).spec_value() == value ==> *final(self) == *old(self),
            old(self).spec_value() != value ==> {
                &&& final(self).spec_value() == clamp(
                    value as int,
                    old(self).spec_min(),
                    old(self).spec_max(),
                )
                &&& final(self).spec_normal() == int_value_to_normal(
                    old(self).spec_min(),
                    old(self).spec_max(),
                    value as int,
                )
            },
    {
        proof {
            use_type_invariant(&*self);
        }
        if self.value != value {
            let v: i32 = constrain_i32(value, self.min, self.max);
            let n: i64 = exec_int_value_to_normal(self.min, self.max, v);
            proof {
                lemma_int_value_to_normal_clamps(self.min as int, self.max as int, value as int);
            }
            *self = IntParam { value: v, normal: n, ..*self };
        }
    }

    /// Sets the parameter's step from a [`Normal`]: the normal is rounded
    /// to the nearest step and the canonical normal of that step is
    /// stored, so two raw normals that round to the same step collapse to
    /// one stored normal.  A no-op when `normal` equals the stored normal.
    pub fn set_from_normal(&mut self, normal: Normal)
        ensures
            *final(self) == old(self).set_from_normal_spec(normal@),
            final(self).spec_min() == old(self).spec_min(),
            final(self).spec_max() == old(self).spec_max(),
            final(self).spec_id() == old(self).spec_id(),
            final(self).spec_default_value() == old(self).spec_default_value(),
            final(self).spec_default_normal() == old(self).spec_default_normal(),
            old(self).spec_normal() == normal@ ==> *final(self) == *old(self),
            old(self).spec_normal() != normal@ ==> {
                &&& final(self).spec_value() == clamp(
                    int_normal_to_value(old(self).spec_min(), old(self).spec_max(), normal@),
                    old(self).spec_min(),
                    old(self).spec_max(),
                )
                &&& final(self).spec_normal() == int_value_to_normal(
                    old(self).spec_min(),
                    old(self).spec_max(),
                    final(self).spec_value(),
                )
            },
    {
        proof {
            use_type_invariant(&*self);
        }
        let n: i64 = normal.value();
        if self.normal != n {
            let raw: i32 = exec_int_normal_to_value(self.min, self.max, n);
            let v: i32 = constrain_i32(raw, self.min, self.max);
            let cn: i64 = exec_int_value_to_normal(self.min, self.max, v);
            *self = IntParam { value: v, normal: cn, ..*self };
        }
    }

    /// Returns the parameter's current step.
    pub fn value(&self) -> (r: i32)
        ensures
            r == self.spec_value(),
    {
        self.value
    }

    /// Returns the parameter's default step.
    pub fn default_value(&self) -> (r: i32)
        ensures
            r == self.spec_default_value(),
    {
        self.default_value
    }

    /// Returns the canonical [`Normal`] of step `value`; out-of-range
    /// steps are clamped.
    pub fn value_to_normal(&self, value: i32) -> (r: Normal)
        ensures
            r@ == int_value_to_normal(self.spec_min(), self.spec_max(), value as int),
    {
        proof {
            use_type_invariant(self);
        }
        let v: i32 = constrain_i32(value, self.min, self.max);
        let n: i64 = exec_int_value_to_normal(self.min, self.max, v);
        proof {
            lemma_int_value_to_normal_clamps(self.min as int, self.max as int, value as int);
        }
        Normal::new(n)
    }

    /// Returns the step nearest to `normal`.
    pub fn normal_to_value(&self, normal: Normal) -> (r: i32)
        ensures
            r == int_normal_to_value(self.spec_min(), self.spec_max(), normal@),
            self.spec_min() <= r <= self.spec_max(),
    {
        proof {
            use_type_invariant(self);
        }
        let n: i64 = normal.value();
        exec_int_normal_to_value(self.min, self.max, n)
    }

    /// Law: mapping an in-range step to its normal and back returns the
    /// step exactly, whenever the range spans fewer steps than the
    /// fixed-point scale can tell apart.
    pub proof fn lemma_value_round_trip(p: Self, v: int)
        requires
            p.wf(),
            p.spec_min() <= v <= p.spec_max(),
            p.spec_max() - p.spec_min() < UNIT,
        ensures
            int_normal_to_value(
                p.spec_min(),
                p.spec_max(),
                int_value_to_normal(p.spec_min(), p.spec_max(), v),
            ) == v,
    {
        let minv = p.spec_min();
        let maxv = p.spec_max();
        let d = maxv - minv;
        let a = v - minv;
        let ui = UNIT as int;
        assert(clamp(v, minv, maxv) == v);
        let n = round_div(a * ui, d);
        lemma_fundamental_div_mod(2 * (a * ui) + d, 2 * d);
        lemma_mod_division_less_than_divisor(2 * (a * ui) + d, 2 * d);
        let rho = (2 * (a * ui) + d) % (2 * d);
        assert(2 * (n * d) == 2 * (a * ui) + d - rho) by (nonlinear_arith)
            requires
                2 * (a * ui) + d == 2 * d * n + rho,
        ;
        let s = ui + d - rho;
        assert(2 * (n * d) + ui == 2 * ui * a + s) by (nonlinear_arith)
            requires
                2 * (n * d) == 2 * (a * ui) + d - rho && s == ui + d - rho,
        ;
        assert(0 < s < 2 * ui);
        assert(round_div(n * d, ui) == a) by {
            assert(2 * (n * d) + ui == s + a * (2 * ui)) by (nonlinear_arith)
                requires
                    2 * (n * d) + ui == 2 * ui * a + s,
            ;
            lemma_hoist_over_denominator(s, a, (2 * ui) as nat);
            lemma_basic_div(s, 2 * ui);
        }
    }

    /// Law: setting the same normal twice changes the parameter once; the
    /// second application is the identity.
    pub proof fn lemma_set_from_normal_idempotent(p: Self, n: int)
        requires
            p.wf(),
            0 <= n <= UNIT,
        ensures
            p.set_from_normal_spec(n).set_from_normal_spec(n) == p.set_from_normal_spec(n),
    {
        let q = p.set_from_normal_spec(n);
        if p.normal != n && q.normal != n {
            let v = clamp(
                int_normal_to_value(p.min as int, p.max as int, n),
                p.min as int,
                p.max as int,
            );
            assert(q.value == v as i32);
        }
    }

    /// Law: setting the same step twice changes the parameter once; the
    /// second application is the identity.
    pub proof fn lemma_set_from_value_idempotent(p: Self, v: int)
        requires
            p.wf(),
        ensures
            p.set_from_value_spec(v).set_from_value_spec(v) == p.set_from_value_spec(v),
    {
        let q = p.set_from_value_spec(v);
        if p.value != v && q.value != v {
            assert(clamp(v, p.min as int, p.max as int) == q.value as int);
        }
    }
}

impl<ID: Copy> Param for IntParam<ID> {
    type ID = ID;

    closed spec fn spec_id(&self) -> ID {
        self.id
    }

    closed spec fn spec_normal(&self) -> int {
        self.normal as int
    }

    closed spec fn spec_default_normal(&self) -> int {
        self.default_normal as int
    }

    fn id(&self) -> (r: ID)
        ensures
            r == self.spec_id(),
    {
        self.id
    }

    fn normal(&self) -> (r: Normal)
        ensures
            r@ == self.spec_normal(),
    {
        proof {
            use_type_invariant(self);
        }
        Normal::new(self.normal)
    }

    fn default_normal(&self) -> (r: Normal)
        ensures
            r@ == self.spec_default_normal(),
    {
        proof {
            use_type_invariant(self);
        }
        Normal::new(self.default_normal)
    }
}

/// Clamps a step into `[min, max]`, as executable code.
fn constrain_i32(value: i32, min: i32, max: i32) -> (r: i32)
    requires
        min < max,
    ensures
        r == clamp(value as int, min as int, max as int),
{
    if value <= min {
        min
    } else if value >= max {
        max
    } else {
        value
    }
}

/// Clamping the input first changes nothing: the rounded affine map
/// clamps its input either way.
proof fn lemma_int_value_to_normal_clamps(min: int, max: int, v: int)
    requires
        min < max,
    ensures
        int_value_to_normal(min, max, clamp(v, min, max)) == int_value_to_normal(min, max, v),
{
}

/// The rounded value-to-normal map, as executable code.
fn exec_int_value_to_normal(min: i32, max: i32, v: i32) -> (r: i64)
    requires
        min < max,
        min <= v <= max,
    ensures
        r == int_value_to_normal(min as int, max as int, v as int),
        0 <= r <= UNIT,
{
    let a: u128 = (v as i64 - min as i64) as u128;
    let d: u128 = (max as i64 - min as i64) as u128;
    proof {
        lemma_mul_inequality(a as int, d as int, UNIT as int);
        lemma_round_div_in_range((a * (UNIT as u128)) as int, d as int, UNIT as int);
    }
    let q: u128 = (2 * (a * (UNIT as u128)) + d) / (2 * d);
    q as i64
}

/// The rounded normal-to-value map, as executable code.
fn exec_int_normal_to_value(min: i32, max: i32, n: i64) -> (r: i32)
    requires
        min < max,
        0 <= n <= UNIT,
    ensures
        r == int_normal_to_value(min as int, max as int, n as int),
        min <= r <= max,
{
    let d: u128 = (max as i64 - min as i64) as u128;
    proof {
        lemma_mul_inequality(n as int, UNIT as int, d as int);
        lemma_round_div_in_range(((n as u128) * d) as int, UNIT as int, d as int);
    }
    let s: u128 = (2 * ((n as u128) * d) + (UNIT as u128)) / (2 * (UNIT as u128));
    ((min as i64) + s as i64) as i32
}

} // verus!
