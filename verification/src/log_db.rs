//! The logarithmic [`LogDBParam`] mapping with a stationary zero point.

use crate::math::clamp;
use crate::math::is_sqrt_floor;
use crate::math::isqrt;
use crate::math::lemma_div_in_range;
use crate::math::lemma_rescale_round_trip;
use crate::math::lemma_sqrt_floor_exists;
use crate::math::lemma_sqrt_floor_le;
use crate::math::lemma_sqrt_floor_unique;
use crate::math::sqrt_floor;
use crate::normal::Normal;
use crate::normal::UNIT;
use crate::param::Param;
use vstd::arithmetic::div_mod::lemma_div_is_ordered;
use vstd::arithmetic::div_mod::lemma_fundamental_div_mod;
use vstd::arithmetic::div_mod::lemma_mod_division_less_than_divisor;
use vstd::arithmetic::div_mod::lemma_div_multiples_vanish;
use vstd::arithmetic::div_mod::lemma_div_pos_is_pos;
use vstd::arithmetic::mul::lemma_mul_inequality;
use vstd::prelude::*;

verus! {

/// The normal corresponding to a decibel value `v`.
///
/// Zero decibels maps to the configured zero normal `z`.  A negative
/// value is mapped through the square root of its fraction of `min`, a
/// positive value through the square root of its fraction of `max`, so
/// resolution is finest around the zero point.  Out-of-range values are
/// clamped to the corresponding end of the normal range.
pub open spec fn db_value_to_normal(min: int, max: int, z: int, v: int) -> int {
    if v == 0 {
        z
    } else if v < 0 {
        if min >= 0 {
            0
        } else {
            let cv = if v < min {
                min
            } else {
                v
            };
            let frac = ((-cv) * (UNIT as int)) / (-min);
            let s = sqrt_floor(frac * (UNIT as int));
            ((UNIT as int) - s) * z / (UNIT as int)
        }
    } else {
        if max <= 0 {
            UNIT as int
        } else {
            let cv = if v > max {
                max
            } else {
                v
            };
            let frac = (cv * (UNIT as int)) / max;
            let s = sqrt_floor(frac * (UNIT as int));
            z + s * ((UNIT as int) - z) / (UNIT as int)
        }
    }
}

/// The decibel value corresponding to a normal `n`.
///
/// The zero normal `z` maps to zero decibels; below it the squared
/// distance from `z` scales `min`, above it the squared distance scales
/// `max` — the inverse of [`db_value_to_normal`].
pub open spec fn db_normal_to_value(min: int, max: int, z: int, n: int) -> int {
    if n == z {
        0
    } else if n < z {
        if min >= 0 {
            min
        } else {
            let nn = n * (UNIT as int) / z;
            let dd = (UNIT as int) - nn;
            -(((-min) * (dd * dd)) / ((UNIT as int) * (UNIT as int)))
        }
    } else {
        if z == UNIT || max <= 0 {
            max
        } else {
            let pn = (n - z) * (UNIT as int) / ((UNIT as int) - z);
            max * (pn * pn) / ((UNIT as int) * (UNIT as int))
        }
    }
}

/// A [`Param`] over a continuous logarithmic range of decibel values,
/// with an inflection point at zero decibels.
///
/// Values around zero decibels change slower per unit of slider movement
/// than values farther away.  The position of the zero-decibel point on
/// the widget is configurable and independent of where zero falls
/// proportionally within `[min, max]`.
#[derive(Debug, Copy)]
pub struct LogDBParam<ID: Copy> {
    id: ID,
    value: i64,
    default_value: i64,
    normal: i64,
    default_normal: i64,
    zero_normal: i64,
    min: i64,
    max: i64,
}

impl<ID: Copy> Clone for LogDBParam<ID> {
    fn clone(&self) -> (r: Self)
        ensures
            r == *self,
    {
        *self
    }
}

impl<ID: Copy> LogDBParam<ID> {
    /// The lower bound of the range in millionths of a decibel; never
    /// positive.
    pub closed spec fn spec_min(&self) -> int {
        self.min as int
    }

    /// The upper bound of the range in millionths of a decibel; never
    /// negative.
    pub closed spec fn spec_max(&self) -> int {
        self.max as int
    }

    /// The current value in millionths of a decibel.
    pub closed spec fn spec_value(&self) -> int {
        self.value as int
    }

    /// The default value in millionths of a decibel.
    pub closed spec fn spec_default_value(&self) -> int {
        self.default_value as int
    }

    /// The normal position of the zero-decibel point, in millionths.
    pub closed spec fn spec_zero_normal(&self) -> int {
        self.zero_normal as int
    }

    /// Everything a `LogDBParam` maintains: a proper range that straddles
    /// zero decibels, clamped value and default, normals in range, and a
    /// normal that is mutually consistent with the value.
    #[verifier::type_invariant]
    pub open spec fn wf(&self) -> bool {
        &&& self.spec_min() < self.spec_max()
        &&& self.spec_min() <= 0
        &&& self.spec_max() >= 0
        &&& self.spec_min() <= self.spec_value() <= self.spec_max()
        &&& self.spec_min() <= self.spec_default_value() <= self.spec_max()
        &&& 0 <= self.spec_normal() <= UNIT
        &&& 0 <= self.spec_default_normal() <= UNIT
        &&& 0 <= self.spec_zero_normal() <= UNIT
        &&& self.spec_default_normal() == db_value_to_normal(
            self.spec_min(),
            self.spec_max(),
            self.spec_zero_normal(),
            self.spec_default_value(),
        )
        &&& (self.spec_normal() == db_value_to_normal(
            self.spec_min(),
            self.spec_max(),
            self.spec_zero_normal(),
            self.spec_value(),
        ) || self.spec_value() == db_normal_to_value(
            self.spec_min(),
            self.spec_max(),
            self.spec_zero_normal(),
            self.spec_normal(),
        ))
    }

    /// The parameter after `set_from_value(v)`.
    pub closed spec fn set_from_value_spec(self, v: int) -> Self {
        if self.value == v {
            self
        } else {
            let cv = clamp(v, self.min as int, self.max as int);
            LogDBParam {
                value: cv as i64,
                normal: db_value_to_normal(
                    self.min as int,
                    self.max as int,
                    self.zero_normal as int,
                    cv,
                ) as i64,
                ..self
            }
        }
    }

    /// The parameter after `set_from_normal(n)`.
    pub closed spec fn set_from_normal_spec(self, n: int) -> Self {
        if self.normal == n {
            self
        } else {
            LogDBParam {
                value: db_normal_to_value(
                    self.min as int,
                    self.max as int,
                    self.zero_normal as int,
                    n,
                ) as i64,
                normal: n as i64,
                ..self
            }
        }
    }

    /// Creates a new `LogDBParam` over `[min, max]` millionths of a
    /// decibel.  The range must straddle zero: a parameter that cannot
    /// reach zero decibels is a configuration error.  `zero_normal` fixes
    /// where on the widget the zero-decibel point sits.
    pub fn new(
        id: ID,
        min: i64,
        max: i64,
        value: i64,
        default_value: i64,
        zero_normal: Normal,
    ) -> (r: Self)
        requires
            min < max,
            min <= 0,
            max >= 0,
        ensures
            r.spec_id() == id,
            r.spec_min() == min,
            r.spec_max() == max,
            r.spec_zero_normal() == zero_normal@,
            r.spec_value() == clamp(value as int, min as int, max as int),
            r.spec_default_value() == clamp(default_value as int, min as int, max as int),
            r.spec_normal() == db_value_to_normal(
                min as int,
                max as int,
                zero_normal@,
                clamp(value as int, min as int, max as int),
            ),
            r.spec_default_normal() == db_value_to_normal(
                min as int,
                max as int,
                zero_normal@,
                clamp(default_value as int, min as int, max as int),
            ),
    {
        let z: i64 = zero_normal.value();
        let v: i64 = crate::param::constrain_i64(value, min, max);
        let dv: i64 = crate::param::constrain_i64(default_value, min, max);
        let n: i64 = exec_db_value_to_normal(min, max, z, v);
        let dn: i64 = exec_db_value_to_normal(min, max, z, dv);
        LogDBParam {
            id,
            value: v,
            default_value: dv,
            normal: n,
            default_normal: dn,
            zero_normal: z,
            min,
            max,
        }
    }

    /// Sets the parameter's value to `value`, clamped into the range; the
    /// normal is recomputed.  A no-op when `value` equals the current
    /// value.
    pub fn set_from_value(&mut self, value: i64)
        ensures
            *final(self) == old(self).set_from_value_spec(value as int),
            final(self).spec_min() == old(self).spec_min(),
            final(self).spec_max() == old(self).spec_max(),
            final(self).spec_id() == old(self).spec_id(),
            final(self).spec_zero_normal() == old(self).spec_zero_normal(),
            final(self).spec_default_value() == old(self).spec_default_value(),
            final(self).spec_default_normal() == old(self).spec_default_normal(),
            old(self).spec_value() == value ==> *final(self) == *old(self),
            old(self).spec_value() != value ==> {
                &&& final(self).spec_value() == clamp(
                    value as int,
                    old(self).spec_min(),
                    old(self).spec_max(),
                )
                &&& final(self).spec_normal() == db_value_to_normal(
                    old(self).spec_min(),
                    old(self).spec_max(),
                    old(self).spec_zero_normal(),
                    final(self).spec_value(),
                )
            },
    {
        proof {
            use_type_invariant(&*self);
        }
        if self.value != value {
            let v: i64 = crate::param::constrain_i64(value, self.min, self.max);
            let n: i64 = exec_db_value_to_normal(self.min, self.max, self.zero_normal, v);
            *self = LogDBParam { value: v, normal: n, ..*self };
        }
    }

    /// Sets the parameter's value from a [`Normal`]; the value is
    /// recomputed from the normal.  A no-op when `normal` equals the
    /// stored normal.
    pub fn set_from_normal(&mut self, normal: Normal)
        ensures
            *final(self) == old(self).set_from_normal_spec(normal@),
            final(self).spec_min() == old(self).spec_min(),
            final(self).spec_max() == old(self).spec_max(),
            final(self).spec_id() == old(self).spec_id(),
            final(self).spec_zero_normal() == old(self).spec_zero_normal(),
            final(self).spec_default_value() == old(self).spec_default_value(),
            final(self).spec_default_normal() == old(self).spec_default_normal(),
            old(self).spec_normal() == normal@ ==> *final(self) == *old(self),
            old(self).spec_normal() != normal@ ==> {
                &&& final(self).spec_normal() == normal@
                &&& final(self).spec_value() == db_normal_to_value(
                    old(self).spec_min(),
                    old(self).spec_max(),
                    old(self).spec_zero_normal(),
                    normal@,
                )
            },
    {
        proof {
            use_type_invariant(&*self);
        }
        let n: i64 = normal.value();
        if self.normal != n {
            let v: i64 = exec_db_normal_to_value(self.min, self.max, self.zero_normal, n);
            *self = LogDBParam { value: v, normal: n, ..*self };
        }
    }

    /// Returns the parameter's current value, in millionths of a decibel.
    pub fn value(&self) -> (r: i64)
        ensures
            r == self.spec_value(),
    {
        self.value
    }

    /// Returns the parameter's default value, in millionths of a decibel.
    pub fn default_value(&self) -> (r: i64)
        ensures
            r == self.spec_default_value(),
    {
        self.default_value
    }

    /// Returns the [`Normal`] corresponding to `value`; out-of-range
    /// values are clamped to the ends of the normal range.
    pub fn value_to_normal(&self, value: i64) -> (r: Normal)
        ensures
            r@ == db_value_to_normal(
                self.spec_min(),
                self.spec_max(),
                self.spec_zero_normal(),
                value as int,
            ),
    {
        proof {
            use_type_invariant(self);
        }
        let n: i64 = exec_db_value_to_normal(self.min, self.max, self.zero_normal, value);
        Normal::new(n)
    }

    /// Returns the decibel value corresponding to `normal`.
    pub fn normal_to_value(&self, normal: Normal) -> (r: i64)
        ensures
            r == db_normal_to_value(
                self.spec_min(),
                self.spec_max(),
                self.spec_zero_normal(),
                normal@,
            ),
            self.spec_min() <= r <= self.spec_max(),
    {
        proof {
            use_type_invariant(self);
        }
        let n: i64 = normal.value();
        exec_db_normal_to_value(self.min, self.max, self.zero_normal, n)
    }

    /// Law: zero decibels always maps to the configured zero normal, and
    /// the range ends map to the ends of the normal range.
    pub proof fn lemma_zero_point(p: Self)
        requires
            p.wf(),
            p.spec_min() < 0,
            p.spec_max() > 0,
        ensures
            db_value_to_normal(p.spec_min(), p.spec_max(), p.spec_zero_normal(), 0)
                == p.spec_zero_normal(),
            db_value_to_normal(p.spec_min(), p.spec_max(), p.spec_zero_normal(), p.spec_min())
                == 0,
            db_value_to_normal(p.spec_min(), p.spec_max(), p.spec_zero_normal(), p.spec_max())
                == UNIT,
    {
        let ui = UNIT as int;
        let z = p.spec_zero_normal();
        lemma_unit_frac(-p.spec_min());
        lemma_unit_frac(p.spec_max());
        assert(ui * ui < (ui + 1) * (ui + 1)) by (nonlinear_arith)
            requires
                ui >= 0,
        ;
        assert(is_sqrt_floor(ui * ui, ui));
        lemma_sqrt_floor_unique(ui * ui, ui);
        assert((ui - ui) * z == 0) by (nonlinear_arith);
        lemma_div_multiples_vanish(0, ui);
        assert(db_value_to_normal(p.spec_min(), p.spec_max(), z, p.spec_min()) == 0);
        lemma_div_multiples_vanish(ui - z, ui);
        assert(db_value_to_normal(p.spec_min(), p.spec_max(), z, p.spec_max()) == z + (ui - z));
    }

    /// Law: the mapping inverts exactly at the stationary point and at
    /// the ends of the range, whenever the range truly straddles zero
    /// and the zero point sits strictly inside the widget.
    pub proof fn lemma_round_trip_at_ends(p: Self)
        requires
            p.wf(),
            p.spec_min() < 0,
            p.spec_max() > 0,
            0 < p.spec_zero_normal() < UNIT,
        ensures
            ({
                let minv = p.spec_min();
                let maxv = p.spec_max();
                let z = p.spec_zero_normal();
                &&& db_normal_to_value(minv, maxv, z, db_value_to_normal(minv, maxv, z, 0)) == 0
                &&& db_normal_to_value(minv, maxv, z, db_value_to_normal(minv, maxv, z, minv))
                    == minv
                &&& db_normal_to_value(minv, maxv, z, db_value_to_normal(minv, maxv, z, maxv))
                    == maxv
            }),
    {
        let ui = UNIT as int;
        let minv = p.spec_min();
        let maxv = p.spec_max();
        let z = p.spec_zero_normal();
        Self::lemma_zero_point(p);
        assert(db_normal_to_value(minv, maxv, z, 0) == minv) by {
            lemma_div_multiples_vanish(0, z);
            assert(0 * ui == z * 0) by (nonlinear_arith);
            assert(ui - 0 * ui / z == ui);
            lemma_div_multiples_vanish(-minv, ui * ui);
            assert((-minv) * (ui * ui) == (ui * ui) * (-minv)) by (nonlinear_arith);
        }
        assert(db_normal_to_value(minv, maxv, z, UNIT as int) == maxv) by {
            lemma_div_multiples_vanish(ui, ui - z);
            assert((ui - z) * ui == (ui - z) * ui);
            lemma_div_multiples_vanish(maxv, ui * ui);
            assert(maxv * (ui * ui) == (ui * ui) * maxv) by (nonlinear_arith);
        }
    }

    /// Law: on the non-negative side the round trip never overshoots:
    /// every rounding stage floors, so mapping a value to its normal and
    /// back reads a value between zero and the original.
    pub proof fn lemma_round_trip_never_overshoots(p: Self, v: int)
        requires
            p.wf(),
            0 <= v <= p.spec_max(),
        ensures
            ({
                let z = p.spec_zero_normal();
                let rt = db_normal_to_value(
                    p.spec_min(),
                    p.spec_max(),
                    z,
                    db_value_to_normal(p.spec_min(), p.spec_max(), z, v),
                );
                0 <= rt <= v
            }),
    {
        let ui = UNIT as int;
        let minv = p.spec_min();
        let maxv = p.spec_max();
        let z = p.spec_zero_normal();
        if v > 0 {
            let frac = v * ui / maxv;
            lemma_mul_inequality(v, maxv, ui);
            lemma_div_in_range(v * ui, maxv, ui);
            let sq = frac * ui;
            lemma_mul_inequality(frac, ui, ui);
            lemma_sqrt_floor_exists(sq);
            let s = sqrt_floor(sq);
            lemma_sqrt_floor_le(sq, ui);
            let npart = s * (ui - z) / ui;
            assert(s * (ui - z) <= ui * (ui - z)) by (nonlinear_arith)
                requires
                    0 <= s <= ui && z <= ui,
            ;
            lemma_div_in_range(s * (ui - z), ui, ui - z);
            let n = z + npart;
            assert(n == db_value_to_normal(minv, maxv, z, v));
            if npart == 0 {
                assert(db_normal_to_value(minv, maxv, z, n) == 0);
            } else {
                assert(n > z && !(z == UNIT || maxv <= 0));
                let pn = (n - z) * ui / (ui - z);
                lemma_rescale_round_trip(s, ui, ui - z);
                assert(pn <= s);
                assert(n - z >= 0);
                assert((n - z) * ui >= 0) by (nonlinear_arith)
                    requires
                        n - z >= 0 && ui > 0,
                ;
                lemma_div_pos_is_pos((n - z) * ui, ui - z);
                let rt = maxv * (pn * pn) / (ui * ui);
                assert(pn * pn <= sq) by (nonlinear_arith)
                    requires
                        0 <= pn <= s && s * s <= sq,
                ;
                assert(maxv * (pn * pn) <= maxv * sq) by (nonlinear_arith)
                    requires
                        pn * pn <= sq && maxv >= 0,
                ;
                assert(maxv * (pn * pn) >= 0) by (nonlinear_arith)
                    requires
                        maxv >= 0 && pn * pn >= 0,
                ;
                assert(ui * ui > 0) by (nonlinear_arith)
                    requires
                        ui > 0,
                ;
                lemma_div_pos_is_pos(maxv * (pn * pn), ui * ui);
                lemma_div_is_ordered(maxv * (pn * pn), maxv * sq, ui * ui);
                assert(maxv * sq == (maxv * frac) * ui) by (nonlinear_arith)
                    requires
                        sq == frac * ui,
                ;
                crate::math::lemma_div_mul_cancel(maxv * frac, ui);
                vstd::arithmetic::div_mod::lemma_fundamental_div_mod(v * ui, maxv);
                vstd::arithmetic::div_mod::lemma_mod_division_less_than_divisor(v * ui, maxv);
                assert(maxv * frac <= v * ui);
                vstd::arithmetic::div_mod::lemma_div_is_ordered(maxv * frac, v * ui, ui);
                crate::math::lemma_mul_div_exact(v, ui);
                assert(rt <= v);
            }
        }
    }

    /// Law: on the non-negative side the round trip returns the value up
    /// to a tolerance set by the range and by how much of the widget the
    /// zero point leaves to positive values: a widget that compresses
    /// the positive side into `UNIT - z` normal steps can only resolve
    /// `max` into that many distinct values, so the tolerance grows as
    /// the zero point approaches the top.
    pub proof fn lemma_value_round_trip_pos(p: Self, v: int)
        requires
            p.wf(),
            0 <= v <= p.spec_max(),
            p.spec_zero_normal() < UNIT,
        ensures
            ({
                let ui = UNIT as int;
                let z = p.spec_zero_normal();
                let t = ui / (ui - z) + 1;
                let rt = db_normal_to_value(
                    p.spec_min(),
                    p.spec_max(),
                    z,
                    db_value_to_normal(p.spec_min(), p.spec_max(), z, v),
                );
                &&& 0 <= rt <= v
                &&& v - (p.spec_max() * (2 * t + 3)) / ui - 4 <= rt
            }),
    {
        Self::lemma_round_trip_never_overshoots(p, v);
        let ui = UNIT as int;
        let minv = p.spec_min();
        let maxv = p.spec_max();
        let z = p.spec_zero_normal();
        let t = ui / (ui - z) + 1;
        vstd::arithmetic::div_mod::lemma_div_nonincreasing(ui, ui - z);
        lemma_div_is_ordered(ui - z, ui, ui - z);
        vstd::arithmetic::div_mod::lemma_div_by_self(ui - z);
        assert(2 <= t <= ui + 1);
        assert(maxv * (2 * t + 3) >= 0) by (nonlinear_arith)
            requires
                maxv >= 0 && t >= 0,
        ;
        lemma_div_pos_is_pos(maxv * (2 * t + 3), ui);
        if v > 0 {
            let frac = v * ui / maxv;
            lemma_mul_inequality(v, maxv, ui);
            lemma_div_in_range(v * ui, maxv, ui);
            let sq = frac * ui;
            lemma_mul_inequality(frac, ui, ui);
            lemma_sqrt_floor_exists(sq);
            let s = sqrt_floor(sq);
            lemma_sqrt_floor_le(sq, ui);
            let npart = s * (ui - z) / ui;
            assert(s * (ui - z) <= ui * (ui - z)) by (nonlinear_arith)
                requires
                    0 <= s <= ui && z <= ui,
            ;
            lemma_div_in_range(s * (ui - z), ui, ui - z);
            let n = z + npart;
            assert(n == db_value_to_normal(minv, maxv, z, v));
            if s <= t {
                assert(sq < (t + 1) * (t + 1)) by (nonlinear_arith)
                    requires
                        sq < (s + 1) * (s + 1) && 0 <= s <= t,
                ;
                lemma_positive_value_small(maxv, v, frac, t);
            } else {
                lemma_fundamental_div_mod(ui, ui - z);
                lemma_mod_division_less_than_divisor(ui, ui - z);
                assert((t + 1) * (ui - z) > ui) by (nonlinear_arith)
                    requires
                        t == ui / (ui - z) + 1 && ui == (ui - z) * (ui / (ui - z)) + ui % (ui - z)
                            && ui % (ui - z) < ui - z && ui - z >= 1,
                ;
                assert(s * (ui - z) >= (t + 1) * (ui - z)) by (nonlinear_arith)
                    requires
                        s >= t + 1 && ui - z >= 0,
                ;
                lemma_div_is_ordered(ui, s * (ui - z), ui);
                vstd::arithmetic::div_mod::lemma_div_by_self(ui);
                assert(npart >= 1);
                let pn = (n - z) * ui / (ui - z);
                lemma_rescale_round_trip(s, ui, ui - z);
                let rt = maxv * (pn * pn) / (ui * ui);
                assert(db_normal_to_value(minv, maxv, z, n) == rt);
                assert(pn * pn >= sq - 2 * s * (t + 1)) by (nonlinear_arith)
                    requires
                        pn >= s - t && s > t >= 0 && sq < (s + 1) * (s + 1),
                ;
                assert(2 * s * (t + 1) <= 2 * ui * (t + 1)) by (nonlinear_arith)
                    requires
                        s <= ui && t >= 0,
                ;
                assert(maxv * (pn * pn) >= maxv * (sq - 2 * ui * (t + 1))) by (nonlinear_arith)
                    requires
                        pn * pn >= sq - 2 * ui * (t + 1) && maxv >= 0,
                ;
                assert(ui * ui > 0) by (nonlinear_arith)
                    requires
                        ui > 0,
                ;
                lemma_div_is_ordered(
                    maxv * (sq - 2 * ui * (t + 1)),
                    maxv * (pn * pn),
                    ui * ui,
                );
                assert(maxv * (sq - 2 * ui * (t + 1)) == maxv * sq - (2 * maxv * (t + 1)) * ui)
                    by (nonlinear_arith);
                crate::math::lemma_div_sub_lower(
                    maxv * sq,
                    (2 * maxv * (t + 1)) * ui,
                    ui * ui,
                );
                assert(maxv * sq == (maxv * frac) * ui) by (nonlinear_arith)
                    requires
                        sq == frac * ui,
                ;
                crate::math::lemma_div_mul_cancel(maxv * frac, ui);
                crate::math::lemma_div_mul_cancel(2 * maxv * (t + 1), ui);
                lemma_fundamental_div_mod(v * ui, maxv);
                lemma_mod_division_less_than_divisor(v * ui, maxv);
                assert(maxv * frac >= v * ui - maxv + 1) by (nonlinear_arith)
                    requires
                        v * ui == maxv * frac + (v * ui) % maxv && (v * ui) % maxv < maxv,
                ;
                lemma_div_is_ordered(v * ui - maxv, maxv * frac, ui);
                vstd::arithmetic::div_mod::lemma_hoist_over_denominator(-maxv, v, ui as nat);
                assert((-maxv) + v * ui == v * ui - maxv);
                crate::math::lemma_neg_div_lower(maxv, ui);
                crate::math::lemma_div_superadd(maxv, 2 * maxv * (t + 1), ui);
                assert(maxv + 2 * maxv * (t + 1) == maxv * (2 * t + 3)) by (nonlinear_arith);
                assert(rt >= v - (maxv * (2 * t + 3)) / ui - 4);
            }
        }
    }

    /// Law: on the negative side the round trip returns the value up to
    /// a tolerance set by the range and by how much of the widget the
    /// zero point leaves to negative values: a widget that compresses
    /// the negative side into `z` normal steps can only resolve `min`
    /// into that many distinct values.
    pub proof fn lemma_value_round_trip_neg(p: Self, v: int)
        requires
            p.wf(),
            p.spec_min() <= v <= 0,
            0 < p.spec_zero_normal(),
        ensures
            ({
                let ui = UNIT as int;
                let z = p.spec_zero_normal();
                let t = ui / z + 1;
                let rt = db_normal_to_value(
                    p.spec_min(),
                    p.spec_max(),
                    z,
                    db_value_to_normal(p.spec_min(), p.spec_max(), z, v),
                );
                let eps = ((-p.spec_min()) * (3 * t + 3)) / ui + 4;
                &&& v - eps <= rt <= v + eps
                &&& rt <= 0
            }),
    {
        let ui = UNIT as int;
        let minv = p.spec_min();
        let maxv = p.spec_max();
        let z = p.spec_zero_normal();
        let t = ui / z + 1;
        let mn = -minv;
        let w = -v;
        vstd::arithmetic::div_mod::lemma_div_nonincreasing(ui, z);
        lemma_div_is_ordered(z, ui, z);
        vstd::arithmetic::div_mod::lemma_div_by_self(z);
        assert(2 <= t <= ui + 1);
        assert(mn * (3 * t + 3) >= 0) by (nonlinear_arith)
            requires
                mn >= 0 && t >= 0,
        ;
        lemma_div_pos_is_pos(mn * (3 * t + 3), ui);
        if v < 0 {
            let frac = w * ui / mn;
            lemma_mul_inequality(w, mn, ui);
            lemma_div_in_range(w * ui, mn, ui);
            let sq = frac * ui;
            lemma_mul_inequality(frac, ui, ui);
            lemma_sqrt_floor_exists(sq);
            let s = sqrt_floor(sq);
            lemma_sqrt_floor_le(sq, ui);
            let a = ui - s;
            let n = a * z / ui;
            lemma_mul_inequality(a, ui, z);
            lemma_div_in_range(a * z, ui, z);
            assert(n == db_value_to_normal(minv, maxv, z, v));
            if s == 0 {
                assert(frac == 0) by {
                    lemma_div_pos_is_pos(w * ui, mn);
                    if frac >= 1 {
                        assert(is_sqrt_floor(sq, s));
                        assert(false) by (nonlinear_arith)
                            requires
                                s == 0 && sq >= ui && ui >= 1 && (s + 1) * (s + 1) > sq,
                        ;
                    }
                }
                assert(w * ui <= mn - 1) by {
                    lemma_fundamental_div_mod(w * ui, mn);
                    lemma_mod_division_less_than_divisor(w * ui, mn);
                    assert(w * ui <= mn - 1) by (nonlinear_arith)
                        requires
                            w * ui == mn * frac + (w * ui) % mn && frac == 0 && (w * ui) % mn
                                < mn,
                    ;
                }
                assert(w <= mn / ui + 1) by {
                    crate::math::lemma_mul_div_exact(w, ui);
                    lemma_div_is_ordered(w * ui, mn - 1, ui);
                    lemma_div_is_ordered(mn - 1, mn, ui);
                }
                lemma_div_multiples_vanish(z, ui);
                assert(n == z);
                assert(db_normal_to_value(minv, maxv, z, n) == 0);
                assert(mn / ui <= (mn * (3 * t + 3)) / ui) by {
                    assert(mn <= mn * (3 * t + 3)) by (nonlinear_arith)
                        requires
                            mn >= 0 && t >= 1,
                    ;
                    lemma_div_is_ordered(mn, mn * (3 * t + 3), ui);
                }
            } else {
                assert(a < ui);
                assert(n < z) by {
                    assert(a * z <= (ui - 1) * z) by (nonlinear_arith)
                        requires
                            a <= ui - 1 && z >= 0,
                    ;
                    lemma_div_is_ordered(a * z, (ui - 1) * z, ui);
                    assert((ui - 1) * z == (-z) + z * ui) by (nonlinear_arith);
                    vstd::arithmetic::div_mod::lemma_hoist_over_denominator(-z, z, ui as nat);
                    crate::math::lemma_neg_div_lower(z, ui);
                    lemma_div_multiples_vanish(z, ui);
                    assert((ui - 1) * z / ui <= z - 1 || z / ui == 0) by {
                        if z / ui >= 1 {
                            assert(z == ui);
                            assert(((-z) + z * ui) / ui == z - 1);
                        } else {
                            assert(((-z) + z * ui) / ui <= z - 1) by {
                                lemma_fundamental_div_mod(-z, ui);
                                lemma_mod_division_less_than_divisor(-z, ui);
                                assert((-z) / ui <= -1) by (nonlinear_arith)
                                    requires
                                        -z == ui * ((-z) / ui) + (-z) % ui && 0 <= (-z) % ui < ui
                                            && 1 <= z <= ui,
                                ;
                            }
                        }
                    }
                    if z / ui == 0 {
                        assert(z < ui) by {
                            if z >= ui {
                                lemma_div_is_ordered(ui, z, ui);
                                vstd::arithmetic::div_mod::lemma_div_by_self(ui);
                            }
                        }
                        assert(((-z) + z * ui) / ui <= z - 1) by {
                            lemma_fundamental_div_mod(-z, ui);
                            lemma_mod_division_less_than_divisor(-z, ui);
                            assert((-z) / ui <= -1) by (nonlinear_arith)
                                requires
                                    -z == ui * ((-z) / ui) + (-z) % ui && 0 <= (-z) % ui < ui && 1
                                        <= z <= ui,
                            ;
                        }
                    }
                }
                let nn = n * ui / z;
                let dd = ui - nn;
                assert(db_normal_to_value(minv, maxv, z, n) == -((mn * (dd * dd)) / (ui * ui)));
                lemma_rescale_round_trip(a, ui, z);
                assert(a - t <= nn <= a);
                assert(s <= dd <= s + t);
                let mnterm = (mn * (dd * dd)) / (ui * ui);
                assert(ui * ui > 0) by (nonlinear_arith)
                    requires
                        ui > 0,
                ;
                assert(mn * (dd * dd) >= 0) by (nonlinear_arith)
                    requires
                        mn >= 0 && dd * dd >= 0,
                ;
                lemma_div_pos_is_pos(mn * (dd * dd), ui * ui);
                // Too high is impossible: the mantissa exceeds the true
                // square root by at most the rescaling step.
                assert(dd * dd <= sq + (3 * t + 2) * ui) by (nonlinear_arith)
                    requires
                        s <= dd <= s + t && s * s <= sq && 0 <= s <= ui && 2 <= t <= ui + 1,
                ;
                assert(mn * (dd * dd) <= mn * sq + (mn * (3 * t + 2)) * ui) by (nonlinear_arith)
                    requires
                        dd * dd <= sq + (3 * t + 2) * ui && mn >= 0,
                ;
                lemma_div_is_ordered(
                    mn * (dd * dd),
                    mn * sq + (mn * (3 * t + 2)) * ui,
                    ui * ui,
                );
                crate::math::lemma_div_sub_lower(
                    mn * sq + (mn * (3 * t + 2)) * ui,
                    (mn * (3 * t + 2)) * ui,
                    ui * ui,
                );
                assert(mn * sq == (mn * frac) * ui) by (nonlinear_arith)
                    requires
                        sq == frac * ui,
                ;
                crate::math::lemma_div_mul_cancel(mn * frac, ui);
                crate::math::lemma_div_mul_cancel(mn * (3 * t + 2), ui);
                assert(mn * frac <= w * ui) by {
                    lemma_fundamental_div_mod(w * ui, mn);
                    lemma_mod_division_less_than_divisor(w * ui, mn);
                }
                lemma_div_is_ordered(mn * frac, w * ui, ui);
                crate::math::lemma_mul_div_exact(w, ui);
                assert(mnterm <= w + (mn * (3 * t + 2)) / ui + 1);
                assert((mn * (3 * t + 2)) / ui <= (mn * (3 * t + 3)) / ui) by {
                    assert(mn * (3 * t + 2) <= mn * (3 * t + 3)) by (nonlinear_arith)
                        requires
                            mn >= 0,
                    ;
                    lemma_div_is_ordered(mn * (3 * t + 2), mn * (3 * t + 3), ui);
                }
                // Too low is impossible: the mantissa is at least the
                // true square root.
                assert(dd * dd >= sq - 3 * ui) by (nonlinear_arith)
                    requires
                        dd >= s && sq < (s + 1) * (s + 1) && 0 <= s <= ui,
                ;
                assert(mn * (dd * dd) >= mn * sq - (3 * mn) * ui) by (nonlinear_arith)
                    requires
                        dd * dd >= sq - 3 * ui && mn >= 0,
                ;
                lemma_div_is_ordered(mn * sq - (3 * mn) * ui, mn * (dd * dd), ui * ui);
                crate::math::lemma_div_sub_lower(mn * sq, (3 * mn) * ui, ui * ui);
                crate::math::lemma_div_mul_cancel(3 * mn, ui);
                assert(mn * frac >= w * ui - mn + 1) by {
                    lemma_fundamental_div_mod(w * ui, mn);
                    lemma_mod_division_less_than_divisor(w * ui, mn);
                    assert(mn * frac >= w * ui - mn + 1) by (nonlinear_arith)
                        requires
                            w * ui == mn * frac + (w * ui) % mn && (w * ui) % mn < mn,
                    ;
                }
                lemma_div_is_ordered(w * ui - mn, mn * frac, ui);
                vstd::arithmetic::div_mod::lemma_hoist_over_denominator(-mn, w, ui as nat);
                assert((-mn) + w * ui == w * ui - mn);
                crate::math::lemma_neg_div_lower(mn, ui);
                assert(mnterm >= w - mn / ui - (3 * mn) / ui - 3);
                crate::math::lemma_div_superadd(mn, 3 * mn, ui);
                assert(mn + 3 * mn == 4 * mn);
                assert((4 * mn) / ui <= (mn * (3 * t + 3)) / ui) by {
                    assert(4 * mn <= mn * (3 * t + 3)) by (nonlinear_arith)
                        requires
                            mn >= 0 && t >= 1,
                    ;
                    lemma_div_is_ordered(4 * mn, mn * (3 * t + 3), ui);
                }
            }
        }
    }

    /// Law: setting the same normal twice changes the parameter once; the
    /// second application is the identity.
    pub proof fn lemma_set_from_normal_idempotent(p: Self, n: int)
        requires
            p.wf(),
            0 <= n <= UNIT,
        ensures
            p.set_from_normal_spec(n).set_from_normal_spec(n) == p.set_from_normal_spec(n),
    {
    }

    /// Law: setting the same value twice changes the parameter once; the
    /// second application is the identity.
    pub proof fn lemma_set_from_value_idempotent(p: Self, v: int)
        requires
            p.wf(),
        ensures
            p.set_from_value_spec(v).set_from_value_spec(v) == p.set_from_value_spec(v),
    {
        let q = p.set_from_value_spec(v);
        if p.value != v && q.value != v {
            assert(clamp(v, p.min as int, p.max as int) == q.value as int);
        }
    }
}

/// A positive value whose squared fraction of the range is small maps
/// near the bottom of the positive band, so the value itself is small:
/// within a few range steps per normal step of the scale.
proof fn lemma_positive_value_small(maxv: int, v: int, frac: int, t: int)
    requires
        maxv > 0,
        v >= 1,
        1 <= t <= (UNIT as int) + 1,
        frac == v * (UNIT as int) / maxv,
        frac * (UNIT as int) < (t + 1) * (t + 1),
    ensures
        v <= (maxv * (2 * t + 3)) / (UNIT as int) + 4,
{
    let ui = UNIT as int;
    crate::math::lemma_mul_div_exact(frac, ui);
    assert((t + 1) * (t + 1) - 1 <= (t + 3) * ui + (ui - 1)) by (nonlinear_arith)
        requires
            1 <= t <= ui + 1 && ui >= 4,
    ;
    lemma_div_is_ordered(frac * ui, (t + 3) * ui + (ui - 1), ui);
    vstd::arithmetic::div_mod::lemma_hoist_over_denominator(ui - 1, t + 3, ui as nat);
    assert((t + 3) * ui + (ui - 1) == (ui - 1) + (t + 3) * ui);
    vstd::arithmetic::div_mod::lemma_basic_div(ui - 1, ui);
    assert(frac <= t + 3);
    vstd::arithmetic::div_mod::lemma_fundamental_div_mod(v * ui, maxv);
    vstd::arithmetic::div_mod::lemma_mod_division_less_than_divisor(v * ui, maxv);
    assert(v * ui <= (frac + 1) * maxv - 1) by (nonlinear_arith)
        requires
            v * ui == maxv * frac + (v * ui) % maxv && (v * ui) % maxv < maxv,
    ;
    crate::math::lemma_mul_div_exact(v, ui);
    lemma_div_is_ordered(v * ui, (frac + 1) * maxv - 1, ui);
    assert((frac + 1) * maxv - 1 <= (t + 4) * maxv) by (nonlinear_arith)
        requires
            frac <= t + 3 && maxv >= 1,
    ;
    lemma_div_is_ordered((frac + 1) * maxv - 1, (t + 4) * maxv, ui);
    assert((t + 4) * maxv <= maxv * (2 * t + 3)) by (nonlinear_arith)
        requires
            t >= 1 && maxv >= 0,
    ;
    lemma_div_is_ordered((t + 4) * maxv, maxv * (2 * t + 3), ui);
}

/// A full-scale fraction divides to exactly `UNIT`.
proof fn lemma_unit_frac(m: int)
    requires
        m > 0,
    ensures
        (m * (UNIT as int)) / m == UNIT as int,
{
    lemma_div_multiples_vanish(UNIT as int, m);
}

impl<ID: Copy> Param for LogDBParam<ID> {
    type ID = ID;

    closed spec fn spec_id(&self) -> ID {
        self.id
    }

    closed spec fn spec_normal(&self) -> int {
        self.normal as int
    }

    closed spec fn spec_default_normal(&self) -> int {
        self.default_normal as int
    }

    fn id(&self) -> (r: ID)
        ensures
            r == self.spec_id(),
    {
        self.id
    }

    fn normal(&self) -> (r: Normal)
        ensures
            r@ == self.spec_normal(),
    {
        proof {
            use_type_invariant(self);
        }
        Normal::new(self.normal)
    }

    fn default_normal(&self) -> (r: Normal)
        ensures
            r@ == self.spec_default_normal(),
    {
        proof {
            use_type_invariant(self);
        }
        Normal::new(self.default_normal)
    }
}

/// The decibel value-to-normal map, as executable code.
fn exec_db_value_to_normal(min: i64, max: i64, z: i64, v: i64) -> (r: i64)
    requires
        min < max,
        min <= 0,
        max >= 0,
        0 <= z <= UNIT,
    ensures
        r == db_value_to_normal(min as int, max as int, z as int, v as int),
        0 <= r <= UNIT,
{
    let ui: u128 = UNIT as u128;
    if v == 0 {
        z
    } else if v < 0 {
        if min >= 0 {
            0
        } else {
            let cv: i64 = if v < min {
                min
            } else {
                v
            };
            let mv: u128 = (-(cv as i128)) as u128;
            let mm: u128 = (-(min as i128)) as u128;
            proof {
                assert(mv * ui <= mm * ui) by (nonlinear_arith)
                    requires
                        mv <= mm && ui > 0,
                ;
                lemma_div_in_range((mv * ui) as int, mm as int, UNIT as int);
            }
            let frac: u128 = mv * ui / mm;
            proof {
                lemma_mul_inequality(frac as int, UNIT as int, UNIT as int);
            }
            let s: u128 = isqrt(frac * ui);
            proof {
                lemma_sqrt_floor_le((frac * ui) as int, UNIT as int);
                assert((ui - s) * (z as u128) <= ui * (z as u128)) by (nonlinear_arith)
                    requires
                        s <= ui && z >= 0,
                ;
                lemma_div_in_range(((ui - s) * (z as u128)) as int, UNIT as int, z as int);
            }
            let r: u128 = (ui - s) * (z as u128) / ui;
            r as i64
        }
    } else {
        if max <= 0 {
            UNIT
        } else {
            let cv: i64 = if v > max {
                max
            } else {
                v
            };
            let pv: u128 = cv as u128;
            let pm: u128 = max as u128;
            proof {
                assert(pv * ui <= pm * ui) by (nonlinear_arith)
                    requires
                        pv <= pm && ui > 0,
                ;
                lemma_div_in_range((pv * ui) as int, pm as int, UNIT as int);
            }
            let frac: u128 = pv * ui / pm;
            proof {
                lemma_mul_inequality(frac as int, UNIT as int, UNIT as int);
            }
            let s: u128 = isqrt(frac * ui);
            proof {
                lemma_sqrt_floor_le((frac * ui) as int, UNIT as int);
                assert(s * (ui - (z as u128)) <= ui * (ui - (z as u128))) by (nonlinear_arith)
                    requires
                        s <= ui && (z as u128) <= ui,
                ;
                lemma_div_in_range((s * (ui - (z as u128))) as int, UNIT as int, UNIT - z);
            }
            let r: u128 = s * (ui - (z as u128)) / ui;
            z + r as i64
        }
    }
}

/// The decibel normal-to-value map, as executable code.
fn exec_db_normal_to_value(min: i64, max: i64, z: i64, n: i64) -> (r: i64)
    requires
        min < max,
        min <= 0,
        max >= 0,
        0 <= z <= UNIT,
        0 <= n <= UNIT,
    ensures
        r == db_normal_to_value(min as int, max as int, z as int, n as int),
        min <= r <= max,
{
    let ui: u128 = UNIT as u128;
    if n == z {
        0
    } else if n < z {
        if min >= 0 {
            min
        } else {
            proof {
                assert((n as u128) * ui <= (z as u128) * ui) by (nonlinear_arith)
                    requires
                        0 <= n <= z && ui > 0,
                ;
                lemma_div_in_range(((n as u128) * ui) as int, z as int, UNIT as int);
            }
            let nn: u128 = (n as u128) * ui / (z as u128);
            let dd: u128 = ui - nn;
            let mm: u128 = (-(min as i128)) as u128;
            proof {
                lemma_mul_inequality(dd as int, UNIT as int, dd as int);
                lemma_mul_inequality(dd as int, UNIT as int, UNIT as int);
                assert(mm * (dd * dd) <= mm * (ui * ui)) by (nonlinear_arith)
                    requires
                        dd * dd <= ui * ui && mm >= 0,
                ;
                assert((ui * ui) * mm == mm * (ui * ui)) by (nonlinear_arith);
                lemma_div_in_range((mm * (dd * dd)) as int, (ui * ui) as int, mm as int);
            }
            let mag: u128 = mm * (dd * dd) / (ui * ui);
            (-(mag as i128)) as i64
        }
    } else {
        if z == UNIT || max <= 0 {
            max
        } else {
            proof {
                assert(((n - z) as u128) * ui <= ((UNIT - z) as u128) * ui) by (nonlinear_arith)
                    requires
                        0 <= n - z <= UNIT - z && ui > 0,
                ;
                lemma_div_in_range((((n - z) as u128) * ui) as int, UNIT - z, UNIT as int);
            }
            let pn: u128 = ((n - z) as u128) * ui / ((UNIT - z) as u128);
            proof {
                lemma_mul_inequality(pn as int, UNIT as int, pn as int);
                lemma_mul_inequality(pn as int, UNIT as int, UNIT as int);
                assert((max as u128) * (pn * pn) <= (max as u128) * (ui * ui))
                    by (nonlinear_arith)
                    requires
                        pn * pn <= ui * ui && max >= 0,
                ;
                assert((ui * ui) * (max as u128) == (max as u128) * (ui * ui))
                    by (nonlinear_arith);
                lemma_div_in_range(((max as u128) * (pn * pn)) as int, (ui * ui) as int,
                    max as int);
            }
            let r: u128 = (max as u128) * (pn * pn) / (ui * ui);
            r as i64
        }
    }
}

} // verus!
