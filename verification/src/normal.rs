//! The [`Normal`] type: a clamped fixed-point position in the unit interval.

use vstd::prelude::*;

verus! {

/// Fixed-point scale of this crate: the number of steps that represent the
/// value one.  Normals, parameter values and scalars are integers counted in
/// millionths of their natural unit.
pub const UNIT: i64 = 1_000_000;

/// Clamps an integer into `[0, UNIT]`.
pub open spec fn clamped_unit(x: int) -> int {
    if x <= 0 {
        0
    } else if x >= UNIT {
        UNIT as int
    } else {
        x
    }
}

/// A widget position: a fixed-point number in the closed unit interval,
/// counted in millionths.  It carries no unit information; it is purely
/// positional.  Construction clamps, so a `Normal` can never leave its
/// range, whatever arithmetic produced the argument.
#[derive(Debug, Clone, Copy, PartialEq, Eq, Structural)]
pub struct Normal {
    units: i64,
}

impl View for Normal {
    type V = int;

    closed spec fn view(&self) -> int {
        self.units as int
    }
}

impl Normal {
    /// Every `Normal` lies in `[0, UNIT]`.
    #[verifier::type_invariant]
    pub open spec fn wf(self) -> bool {
        0 <= self@ <= UNIT
    }

    /// Builds a `Normal` from a count of millionths; values outside
    /// `[0, UNIT]` are clamped, so construction is total and silent.
    pub fn new(units: i64) -> (r: Normal)
        ensures
            r@ == clamped_unit(units as int),
    {
        if units <= 0 {
            Normal { units: 0 }
        } else if units >= UNIT {
            Normal { units: UNIT }
        } else {
            Normal { units }
        }
    }

    /// The stored count of millionths.
    pub fn value(&self) -> (r: i64)
        ensures
            r == self@,
            0 <= r <= UNIT,
    {
        proof {
            use_type_invariant(self);
        }
        self.units
    }

}

} // verus!
