//! Tick marks: reference positions drawn along a widget.

use crate::math::lemma_div_in_range;
use crate::normal::Normal;
use crate::normal::UNIT;
use vstd::arithmetic::mul::lemma_mul_inequality;
use vstd::prelude::*;

verus! {

/// The visual prominence of a tick mark; tier one is the most
/// prominent.
#[derive(Debug, Clone, Copy, PartialEq, Eq, Structural)]
pub enum TickMarkTier {
    /// The most prominent marks.
    One,
    /// Marks subdividing the gaps between tier-one marks.
    Two,
    /// The finest marks, subdividing the gaps between tier-two marks.
    Three,
}

/// The depth of a tier: how many subdivision rounds produced it.
pub open spec fn tier_depth(t: TickMarkTier) -> int {
    match t {
        TickMarkTier::One => 1,
        TickMarkTier::Two => 2,
        TickMarkTier::Three => 3,
    }
}

/// A single tick mark: a position along the widget and a prominence
/// tier.
#[derive(Debug, Clone, Copy, PartialEq, Eq, Structural)]
pub struct TickMark {
    /// Where along the widget the mark sits.
    pub position: Normal,
    /// How prominently the mark is drawn.
    pub tier: TickMarkTier,
}

/// The grid index of the `j`-th mark a subdivision round emits, when
/// each existing gap receives `per_gap` marks: gap `j / per_gap` of the
/// coarser grid, mark `j % per_gap + 1` within it.
pub open spec fn sub_index(j: int, per_gap: int) -> int {
    (j / per_gap) * (per_gap + 1) + (j % per_gap) + 1
}

/// A group of tick marks, in no particular order: rendering checks each
/// mark's tier, never its position against its neighbours.
#[derive(Debug)]
pub struct TickMarkGroup {
    /// The marks of the group.
    pub group: Vec<TickMark>,
}

impl TickMarkGroup {
    /// Builds a group from an explicit list of marks, kept as given.
    pub fn new(tick_marks: Vec<TickMark>) -> (r: TickMarkGroup)
        ensures
            r.group@ == tick_marks@,
    {
        TickMarkGroup { group: tick_marks }
    }

    /// Builds a group by even subdivision: `one` tier-one marks split
    /// the widget into equal segments, then every gap of the resulting
    /// grid receives `two` evenly spaced tier-two marks, and every gap
    /// of that grid `three` tier-three marks.  `max_tier` caps the
    /// deepest tier emitted; deeper tiers are discarded.
    ///
    /// The marks are emitted tier by tier: first the tier-one marks in
    /// order, then tier two, then tier three.
    pub fn subdivided(one: u16, two: u16, three: u16, max_tier: TickMarkTier) -> (r: TickMarkGroup)
        ensures
            r.group@.len() == subdivided_len(one as int, two as int, three as int, max_tier),
            forall|i: int|
                0 <= i < r.group@.len() ==> tier_depth(#[trigger] r.group@[i].tier) <= tier_depth(
                    max_tier,
                ),
            forall|i: int|
                0 <= i < one as int ==> (#[trigger] r.group@[i]).tier == TickMarkTier::One
                    && r.group@[i].position@ == (i + 1) * (UNIT as int) / (one as int + 1),
            tier_depth(max_tier) >= 2 ==> forall|j: int|
                0 <= j < (two as int) * (one as int + 1) ==> (#[trigger] r.group@[one as int
                    + j]).tier == TickMarkTier::Two && r.group@[one as int + j].position@
                    == sub_index(j, two as int) * (UNIT as int) / ((one as int + 1) * (two as int
                    + 1)),
            tier_depth(max_tier) >= 3 ==> forall|j: int|
                0 <= j < (three as int) * (one as int + 1) * (two as int + 1) ==> (
                #[trigger] r.group@[one as int + (two as int) * (one as int + 1) + j]).tier
                    == TickMarkTier::Three && r.group@[one as int + (two as int) * (one as int + 1)
                    + j].position@ == sub_index(j, three as int) * (UNIT as int) / ((one as int
                    + 1) * (two as int + 1) * (three as int + 1)),
    {
        let mut group: Vec<TickMark> = Vec::new();
        let d1: u64 = one as u64 + 1;
        proof {
            assert(d1 * (two as u64 + 1) <= 0x1_0000u64 * 0x1_0000u64) by (nonlinear_arith)
                requires
                    d1 <= 0x1_0000u64 && (two as u64 + 1) <= 0x1_0000u64,
            ;
        }
        let d2: u64 = d1 * (two as u64 + 1);
        proof {
            assert(d2 * (three as u64 + 1) <= 0x1_0000_0000u64 * 0x1_0000u64) by (nonlinear_arith)
                requires
                    d2 <= 0x1_0000_0000u64 && (three as u64 + 1) <= 0x1_0000u64,
            ;
            assert((two as u64) * d1 <= 0x1_0000u64 * 0x1_0000u64) by (nonlinear_arith)
                requires
                    (two as u64) <= 0x1_0000u64 && d1 <= 0x1_0000u64,
            ;
            assert((three as u64) * d2 <= 0x1_0000u64 * 0x1_0000_0000u64) by (nonlinear_arith)
                requires
                    (three as u64) <= 0x1_0000u64 && d2 <= 0x1_0000_0000u64,
            ;
        }
        let d3: u64 = d2 * (three as u64 + 1);
        let mut i: u64 = 0;
        while i < one as u64
            invariant
                0 <= i <= one as u64,
                d1 == one as u64 + 1,
                group@.len() == i,
                forall|t: int|
                    0 <= t < group@.len() ==> tier_depth((#[trigger] group@[t]).tier)
                        <= tier_depth(max_tier),
                forall|t: int|
                    0 <= t < i as int ==> (#[trigger] group@[t]).tier == TickMarkTier::One
                        && group@[t].position@ == (t + 1) * (UNIT as int) / (one as int + 1),
            decreases one as u64 - i,
        {
            let pos: u64 = (i + 1) * (UNIT as u64) / d1;
            proof {
                lemma_mul_inequality(i as int + 1, d1 as int, UNIT as int);
                lemma_div_in_range((i as int + 1) * (UNIT as int), d1 as int, UNIT as int);
            }
            group.push(TickMark { position: Normal::new(pos as i64), tier: TickMarkTier::One });
            i = i + 1;
        }
        let emit_two: bool = match max_tier {
            TickMarkTier::One => false,
            TickMarkTier::Two => true,
            TickMarkTier::Three => true,
        };
        if emit_two {
            let count2: u64 = (two as u64) * d1;
            let mut j: u64 = 0;
            while j < count2
                invariant
                    0 <= j <= count2,
                    d1 == one as u64 + 1,
                    d2 == d1 * (two as u64 + 1),
                    d2 <= 0x1_0000_0000u64,
                    count2 == (two as u64) * d1,
                    tier_depth(max_tier) >= 2,
                    group@.len() == one as int + j,
                    forall|t: int|
                        0 <= t < group@.len() ==> tier_depth((#[trigger] group@[t]).tier)
                            <= tier_depth(max_tier),
                    forall|t: int|
                        0 <= t < one as int ==> (#[trigger] group@[t]).tier == TickMarkTier::One
                            && group@[t].position@ == (t + 1) * (UNIT as int) / (one as int + 1),
                    forall|t: int|
                        0 <= t < j as int ==> (#[trigger] group@[one as int + t]).tier
                            == TickMarkTier::Two && group@[one as int + t].position@ == sub_index(
                            t,
                            two as int,
                        ) * (UNIT as int) / (d2 as int),
                decreases count2 - j,
            {
                proof {
                    lemma_sub_index_in_grid(j as int, two as int, d1 as int);
                }
                let k: u64 = (j / (two as u64)) * (two as u64 + 1) + j % (two as u64) + 1;
                proof {
                    lemma_mul_inequality(k as int, d2 as int, UNIT as int);
                    lemma_div_in_range((k as int) * (UNIT as int), d2 as int, UNIT as int);
                }
                let pos: u64 = k * (UNIT as u64) / d2;
                group.push(
                    TickMark { position: Normal::new(pos as i64), tier: TickMarkTier::Two },
                );
                j = j + 1;
            }
        }
        let emit_three: bool = match max_tier {
            TickMarkTier::One => false,
            TickMarkTier::Two => false,
            TickMarkTier::Three => true,
        };
        if emit_three {
            let count3: u64 = (three as u64) * d2;
            let base: u64 = one as u64 + (two as u64) * d1;
            let mut j: u64 = 0;
            while j < count3
                invariant
                    0 <= j <= count3,
                    d1 == one as u64 + 1,
                    d2 == d1 * (two as u64 + 1),
                    d2 <= 0x1_0000_0000u64,
                    d3 == d2 * (three as u64 + 1),
                    d3 <= 0x1_0000_0000_0000u64,
                    count3 == (three as u64) * d2,
                    tier_depth(max_tier) >= 3,
                    base == one as u64 + (two as u64) * d1,
                    group@.len() == base as int + j,
                    forall|t: int|
                        0 <= t < group@.len() ==> tier_depth((#[trigger] group@[t]).tier)
                            <= tier_depth(max_tier),
                    forall|t: int|
                        0 <= t < one as int ==> (#[trigger] group@[t]).tier == TickMarkTier::One
                            && group@[t].position@ == (t + 1) * (UNIT as int) / (one as int + 1),
                    forall|t: int|
                        0 <= t < (two as int) * (one as int + 1) ==> (#[trigger] group@[one as int
                            + t]).tier == TickMarkTier::Two && group@[one as int + t].position@
                            == sub_index(t, two as int) * (UNIT as int) / (d2 as int),
                    forall|t: int|
                        0 <= t < j as int ==> (#[trigger] group@[base as int + t]).tier
                            == TickMarkTier::Three && group@[base as int + t].position@
                            == sub_index(t, three as int) * (UNIT as int) / (d3 as int),
                decreases count3 - j,
            {
                proof {
                    lemma_sub_index_in_grid(j as int, three as int, d2 as int);
                }
                let k: u64 = (j / (three as u64)) * (three as u64 + 1) + j % (three as u64) + 1;
                proof {
                    lemma_mul_inequality(k as int, d3 as int, UNIT as int);
                    lemma_div_in_range((k as int) * (UNIT as int), d3 as int, UNIT as int);
                }
                let pos: u64 = ((k as u128) * (UNIT as u128) / (d3 as u128)) as u64;
                group.push(
                    TickMark { position: Normal::new(pos as i64), tier: TickMarkTier::Three },
                );
                j = j + 1;
            }
        }
        proof {
            vstd::arithmetic::mul::lemma_mul_is_associative(
                three as int,
                one as int + 1,
                two as int + 1,
            );
        }
        TickMarkGroup { group }
    }

    /// Returns how many marks the group holds.
    pub fn len(&self) -> (r: usize)
        ensures
            r == self.group@.len(),
    {
        self.group.len()
    }
}

/// How many marks [`TickMarkGroup::subdivided`] emits.
pub open spec fn subdivided_len(one: int, two: int, three: int, max_tier: TickMarkTier) -> int {
    one + (if tier_depth(max_tier) >= 2 {
        two * (one + 1)
    } else {
        0
    }) + (if tier_depth(max_tier) >= 3 {
        three * (one + 1) * (two + 1)
    } else {
        0
    })
}

/// A subdivision round's grid index stays inside the finer grid: with
/// `gaps` gaps each receiving `per_gap` marks, the `j`-th mark lands
/// strictly between the ends of the grid of `gaps * (per_gap + 1)`
/// steps.
proof fn lemma_sub_index_in_grid(j: int, per_gap: int, gaps: int)
    requires
        0 < per_gap,
        0 < gaps,
        0 <= j < per_gap * gaps,
    ensures
        1 <= sub_index(j, per_gap) < gaps * (per_gap + 1),
{
    vstd::arithmetic::div_mod::lemma_fundamental_div_mod(j, per_gap);
    vstd::arithmetic::div_mod::lemma_mod_division_less_than_divisor(j, per_gap);
    let q = j / per_gap;
    let rem = j % per_gap;
    assert(q <= gaps - 1) by (nonlinear_arith)
        requires
            j == per_gap * q + rem && 0 <= rem && j < per_gap * gaps && per_gap > 0,
    ;
    assert(q >= 0) by (nonlinear_arith)
        requires
            j == per_gap * q + rem && rem < per_gap && j >= 0 && per_gap > 0,
    ;
    assert(q * (per_gap + 1) + rem + 1 < gaps * (per_gap + 1)) by (nonlinear_arith)
        requires
            q <= gaps - 1 && rem < per_gap && per_gap > 0 && gaps > 0 && q >= 0 && rem >= 0,
    ;
}

} // verus!
