//! Plain input types: pointer positions, widget bounds, keyboard
//! modifiers, and click classification.
//!
//! The host GUI layer maps its native events onto these values; every
//! coordinate is a fixed-point integer in millionths of a pixel and
//! every timestamp a count of milliseconds from the host's clock.

use vstd::prelude::*;

verus! {

/// Two presses this close together, in milliseconds, form one
/// multi-click.
pub const CLICK_INTERVAL_MS: u64 = 300;

/// A pointer position, in millionths of a pixel.
#[derive(Debug, Clone, Copy, PartialEq, Eq, Structural)]
pub struct Point {
    /// The horizontal coordinate.
    pub x: i64,
    /// The vertical coordinate.
    pub y: i64,
}

/// A widget's rectangle: origin and size, in millionths of a pixel.
#[derive(Debug, Clone, Copy, PartialEq, Eq, Structural)]
pub struct Bounds {
    /// The horizontal coordinate of the left edge.
    pub x: i64,
    /// The vertical coordinate of the top edge.
    pub y: i64,
    /// The width; a widget that was given no room has width zero.
    pub width: i64,
    /// The height.
    pub height: i64,
}

impl Bounds {
    /// Whether `p` lies inside the rectangle, edges included.
    pub open spec fn spec_contains(&self, p: Point) -> bool {
        &&& self.x <= p.x <= self.x + self.width
        &&& self.y <= p.y <= self.y + self.height
    }

    /// Whether `p` lies inside the rectangle, edges included.
    pub fn contains(&self, p: Point) -> (r: bool)
        ensures
            r == self.spec_contains(p),
    {
        (self.x as i128) <= (p.x as i128) && (p.x as i128) <= (self.x as i128) + (self.width
            as i128) && (self.y as i128) <= (p.y as i128) && (p.y as i128) <= (self.y as i128)
            + (self.height as i128)
    }
}

/// The state of the keyboard modifiers.
#[derive(Debug, Clone, Copy, PartialEq, Eq, Structural)]
pub struct ModifiersState {
    /// Whether a shift key is pressed.
    pub shift: bool,
    /// Whether a control key is pressed.
    pub control: bool,
    /// Whether an alt key is pressed.
    pub alt: bool,
    /// Whether a logo key is pressed.
    pub logo: bool,
}

impl ModifiersState {
    /// The state with no modifier pressed.
    pub open spec fn spec_none() -> ModifiersState {
        ModifiersState { shift: false, control: false, alt: false, logo: false }
    }

    /// Whether at least every modifier enabled in `required` is also
    /// enabled here.
    pub open spec fn spec_matches(&self, required: ModifiersState) -> bool {
        &&& (required.shift ==> self.shift)
        &&& (required.control ==> self.control)
        &&& (required.alt ==> self.alt)
        &&& (required.logo ==> self.logo)
    }

    /// Whether at least every modifier enabled in `required` is also
    /// enabled here.
    pub fn matches(&self, required: ModifiersState) -> (r: bool)
        ensures
            r == self.spec_matches(required),
    {
        (!required.shift || self.shift) && (!required.control || self.control) && (!required.alt
            || self.alt) && (!required.logo || self.logo)
    }
}

impl Default for ModifiersState {
    /// No modifier pressed.
    fn default() -> (r: ModifiersState)
        ensures
            r == ModifiersState::spec_none(),
    {
        ModifiersState { shift: false, control: false, alt: false, logo: false }
    }
}

/// How many consecutive presses a click completes.
#[derive(Debug, Clone, Copy, PartialEq, Eq, Structural)]
pub enum ClickKind {
    /// A lone press.
    Single,
    /// The second press of a pair.
    Double,
    /// The third press of a run.
    Triple,
}

impl ClickKind {
    /// The kind one more consecutive press produces: a run longer than
    /// three alternates between double and triple.
    pub open spec fn spec_next(self) -> ClickKind {
        match self {
            ClickKind::Single => ClickKind::Double,
            ClickKind::Double => ClickKind::Triple,
            ClickKind::Triple => ClickKind::Double,
        }
    }
}

/// A classified press: its kind, where it happened and when.
#[derive(Debug, Clone, Copy, PartialEq, Eq, Structural)]
pub struct Click {
    /// Single, double or triple.
    pub kind: ClickKind,
    /// The pointer position of the press.
    pub position: Point,
    /// The press time, in milliseconds of the host's clock.
    pub time_ms: u64,
}

impl Click {
    /// Whether a press at `position` and `time_ms` continues the run
    /// this click started: same spot, and within the click interval.
    pub open spec fn spec_is_consecutive(&self, position: Point, time_ms: u64) -> bool {
        &&& self.position == position
        &&& self.time_ms <= time_ms <= self.time_ms + CLICK_INTERVAL_MS
    }

    /// The click a press at `position` and `time_ms` forms, given the
    /// previous click if any.
    pub open spec fn spec_after(position: Point, time_ms: u64, previous: Option<Click>) -> Click {
        let kind = match previous {
            Option::Some(prev) => if prev.spec_is_consecutive(position, time_ms) {
                prev.kind.spec_next()
            } else {
                ClickKind::Single
            },
            Option::None => ClickKind::Single,
        };
        Click { kind, position, time_ms }
    }

    /// Classifies a press at `position` and `time_ms` against the
    /// previous click, if any.
    pub fn new(position: Point, time_ms: u64, previous: Option<Click>) -> (r: Click)
        ensures
            r == Click::spec_after(position, time_ms, previous),
    {
        let kind: ClickKind = match previous {
            Option::Some(prev) => {
                if prev.position == position && prev.time_ms <= time_ms && (time_ms as u128)
                    <= (prev.time_ms as u128) + (CLICK_INTERVAL_MS as u128) {
                    match prev.kind {
                        ClickKind::Single => ClickKind::Double,
                        ClickKind::Double => ClickKind::Triple,
                        ClickKind::Triple => ClickKind::Double,
                    }
                } else {
                    ClickKind::Single
                }
            },
            Option::None => ClickKind::Single,
        };
        Click { kind, position, time_ms }
    }

    /// Returns the kind of the click.
    pub fn kind(&self) -> (r: ClickKind)
        ensures
            r == self.kind,
    {
        self.kind
    }
}

} // verus!
