//! The horizontal-slider gesture state machine.
//!
//! A slider turns pointer events into normalized value updates: a press
//! starts a drag from the cursor's position, each pointer move converts
//! the horizontal distance covered since the previous event into a
//! change of the normal, a double click resets to the default, and a
//! release ends the drag.  The accumulator `continuous_normal` is kept
//! unclamped on purpose: dragging past an end of the range and
//! reversing direction must wind the overshoot back before the emitted
//! normal moves again.
//!
//! The host GUI layer feeds events in and applies each emitted
//! `(identifier, Normal)` pair to the matching parameter.

use crate::input::Bounds;
use crate::input::Click;
use crate::input::ClickKind;
use crate::input::ModifiersState;
use crate::input::Point;
use crate::math::div_trunc;
use crate::math::exec_div_trunc;
use crate::math::exec_sat_add_i64;
use crate::math::sat_add_i64;
use crate::normal::clamped_unit;
use crate::normal::Normal;
use crate::normal::UNIT;
use crate::param::Param;
use crate::tick_marks::TickMarkGroup;
use vstd::prelude::*;

verus! {

/// The default factor applied to drag deltas while the modifier keys
/// are held: a fiftieth, for fine adjustment.
pub const DEFAULT_MODIFIER_SCALAR: i64 = 20_000;

/// An input event, as the gesture state machine sees it.
#[derive(Debug, Clone, Copy)]
pub enum Event {
    /// The primary button went down, at the given host-clock time in
    /// milliseconds.
    Pressed { time_ms: u64 },
    /// The primary button went up.
    Released,
    /// The pointer moved.
    CursorMoved,
    /// The keyboard modifier state changed.
    ModifiersChanged { modifiers: ModifiersState },
}

/// The change of the normal for a horizontal pointer motion of `dx`
/// across a widget of the given width, both in millionths of a pixel:
/// the covered fraction of the width, scaled down by `scalar` when the
/// modifier keys were held.
pub open spec fn drag_delta(dx: int, width: int, fine: bool, scalar: int) -> int {
    let base = div_trunc(dx * (UNIT as int), width);
    if fine {
        div_trunc(base * scalar, UNIT as int)
    } else {
        base
    }
}

/// The local state of one slider widget, persisted by the host between
/// events.
#[derive(Debug, Clone, Copy)]
pub struct State {
    /// Whether a drag is in progress.
    pub is_dragging: bool,
    /// The horizontal cursor position the next drag delta is measured
    /// from.
    pub prev_drag_x: i64,
    /// The unclamped drag accumulator, in millionths.  The emitted
    /// normal is this value clamped into the unit interval.
    pub continuous_normal: i64,
    /// The modifiers currently held.
    pub pressed_modifiers: ModifiersState,
    /// The last classified click, for multi-click detection.
    pub last_click: Option<Click>,
}

impl State {
    /// Creates the state for a widget controlling `param`, with the
    /// accumulator seeded from the parameter's current normal.
    pub fn new<P: Param>(param: &P) -> (r: State)
        ensures
            r.is_dragging == false,
            r.prev_drag_x == 0,
            r.continuous_normal == param.spec_normal(),
            r.pressed_modifiers == ModifiersState::spec_none(),
            r.last_click is None,
    {
        State {
            is_dragging: false,
            prev_drag_x: 0,
            continuous_normal: param.normal().value(),
            pressed_modifiers: ModifiersState::default(),
            last_click: Option::None,
        }
    }
}

/// A horizontal slider that controls a parameter: the snapshot of the
/// parameter it displays, plus its gesture configuration.
///
/// The widget itself is a value rebuilt every frame from the parameter;
/// the mutable part lives in [`State`].
#[derive(Debug, Copy)]
pub struct HSlider<ID: Copy> {
    id: ID,
    normal: i64,
    default_normal: i64,
    modifier_scalar: i64,
    modifier_keys: ModifiersState,
}

impl<ID: Copy> Clone for HSlider<ID> {
    fn clone(&self) -> (r: Self)
        ensures
            r == *self,
    {
        *self
    }
}

impl<ID: Copy> HSlider<ID> {
    /// The identifier of the controlled parameter.
    pub closed spec fn spec_id(&self) -> ID {
        self.id
    }

    /// The parameter's current normal, in millionths.
    pub closed spec fn spec_normal(&self) -> int {
        self.normal as int
    }

    /// The parameter's default normal, in millionths.
    pub closed spec fn spec_default_normal(&self) -> int {
        self.default_normal as int
    }

    /// The fine-adjustment factor, in millionths.
    pub closed spec fn spec_modifier_scalar(&self) -> int {
        self.modifier_scalar as int
    }

    /// The modifiers that trigger fine adjustment.
    pub closed spec fn spec_modifier_keys(&self) -> ModifiersState {
        self.modifier_keys
    }

    /// The normals lie in the unit range and the scalar is a factor of
    /// at most one.
    #[verifier::type_invariant]
    pub open spec fn wf(&self) -> bool {
        &&& 0 <= self.spec_normal() <= UNIT
        &&& 0 <= self.spec_default_normal() <= UNIT
        &&& 0 <= self.spec_modifier_scalar() <= UNIT
    }

    /// Creates a slider for `param`, with the default fine-adjustment
    /// configuration: the control key scales drag deltas by
    /// [`DEFAULT_MODIFIER_SCALAR`].
    pub fn new<P: Param<ID = ID>>(param: &P) -> (r: Self)
        ensures
            r.spec_id() == param.spec_id(),
            r.spec_normal() == clamped_unit(param.spec_normal()),
            r.spec_default_normal() == clamped_unit(param.spec_default_normal()),
            r.spec_modifier_scalar() == DEFAULT_MODIFIER_SCALAR,
            r.spec_modifier_keys() == (ModifiersState {
                control: true,
                ..ModifiersState::spec_none()
            }),
    {
        let n: Normal = param.normal();
        let dn: Normal = param.default_normal();
        proof {
            use_type_invariant(&n);
            use_type_invariant(&dn);
        }
        HSlider {
            id: param.id(),
            normal: n.value(),
            default_normal: dn.value(),
            modifier_scalar: DEFAULT_MODIFIER_SCALAR,
            modifier_keys: ModifiersState { control: true, ..ModifiersState::default() },
        }
    }

    /// Replaces the modifiers that trigger fine adjustment.
    pub fn modifier_keys(self, modifier_keys: ModifiersState) -> (r: Self)
        ensures
            r.spec_modifier_keys() == modifier_keys,
            r.spec_id() == self.spec_id(),
            r.spec_normal() == self.spec_normal(),
            r.spec_default_normal() == self.spec_default_normal(),
            r.spec_modifier_scalar() == self.spec_modifier_scalar(),
    {
        proof {
            use_type_invariant(&self);
        }
        HSlider { modifier_keys, ..self }
    }

    /// Replaces the fine-adjustment factor; it must be a factor of at
    /// most one, in millionths.
    pub fn modifier_scalar(self, scalar: i64) -> (r: Self)
        requires
            0 <= scalar <= UNIT,
        ensures
            r.spec_modifier_scalar() == scalar,
            r.spec_id() == self.spec_id(),
            r.spec_normal() == self.spec_normal(),
            r.spec_default_normal() == self.spec_default_normal(),
            r.spec_modifier_keys() == self.spec_modifier_keys(),
    {
        proof {
            use_type_invariant(&self);
        }
        HSlider { modifier_scalar: scalar, ..self }
    }

    /// Feeds one event through the gesture state machine.
    ///
    /// A single press inside the bounds anchors a drag and seeds the
    /// accumulator from the parameter's current normal; a double or
    /// triple press inside the bounds emits the default normal without
    /// dragging; each move while dragging emits the accumulator clamped
    /// into the unit interval; a release resynchronizes the accumulator
    /// to the parameter's normal.  The returned pair, if any, is the
    /// update the host must apply to the parameter.
    pub fn on_event(&self, state: &mut State, event: Event, bounds: Bounds, cursor: Point) -> (r:
        Option<(ID, Normal)>)
        ensures
            ({
                match event {
                    Event::Pressed { time_ms } => {
                        if bounds.spec_contains(cursor) {
                            let click = Click::spec_after(
                                cursor,
                                time_ms,
                                old(state).last_click,
                            );
                            if click.kind is Single {
                                &&& *final(state) == (State {
                                    is_dragging: true,
                                    prev_drag_x: cursor.x,
                                    continuous_normal: self.spec_normal() as i64,
                                    last_click: Option::Some(click),
                                    ..*old(state)
                                })
                                &&& r is None
                            } else {
                                &&& *final(state) == (State {
                                    is_dragging: false,
                                    last_click: Option::Some(click),
                                    ..*old(state)
                                })
                                &&& (r matches Option::Some(m) && m.0 == self.spec_id() && m.1@
                                    == self.spec_default_normal())
                            }
                        } else {
                            *final(state) == *old(state) && r is None
                        }
                    },
                    Event::Released => {
                        &&& *final(state) == (State {
                            is_dragging: false,
                            continuous_normal: self.spec_normal() as i64,
                            ..*old(state)
                        })
                        &&& r is None
                    },
                    Event::CursorMoved => {
                        if old(state).is_dragging && bounds.width != 0 {
                            let mv = drag_delta(
                                cursor.x - old(state).prev_drag_x,
                                bounds.width as int,
                                old(state).pressed_modifiers.spec_matches(
                                    self.spec_modifier_keys(),
                                ),
                                self.spec_modifier_scalar(),
                            );
                            let cn = sat_add_i64(old(state).continuous_normal as int, mv);
                            &&& *final(state) == (State {
                                continuous_normal: cn as i64,
                                prev_drag_x: cursor.x,
                                ..*old(state)
                            })
                            &&& (r matches Option::Some(m) && m.0 == self.spec_id() && m.1@
                                == clamped_unit(cn))
                        } else {
                            *final(state) == *old(state) && r is None
                        }
                    },
                    Event::ModifiersChanged { modifiers } => {
                        &&& *final(state) == (State { pressed_modifiers: modifiers, ..*old(
                            state,
                        ) })
                        &&& r is None
                    },
                }
            }),
    {
        proof {
            use_type_invariant(self);
        }
        match event {
            Event::Pressed { time_ms } => {
                if bounds.contains(cursor) {
                    let click: Click = Click::new(cursor, time_ms, state.last_click);
                    let out: Option<(ID, Normal)> = match click.kind() {
                        ClickKind::Single => {
                            state.is_dragging = true;
                            state.prev_drag_x = cursor.x;
                            state.continuous_normal = self.normal;
                            Option::None
                        },
                        _ => {
                            state.is_dragging = false;
                            Option::Some((self.id, Normal::new(self.default_normal)))
                        },
                    };
                    state.last_click = Option::Some(click);
                    out
                } else {
                    Option::None
                }
            },
            Event::Released => {
                state.is_dragging = false;
                state.continuous_normal = self.normal;
                Option::None
            },
            Event::CursorMoved => {
                if state.is_dragging && bounds.width != 0 {
                    let dxq: i128 = ((cursor.x as i128) - (state.prev_drag_x as i128)) * (UNIT
                        as i128);
                    proof {
                        lemma_delta_bounded(
                            (cursor.x as int - state.prev_drag_x as int) * (UNIT as int),
                            bounds.width as int,
                            self.modifier_scalar as int,
                        );
                    }
                    let base: i128 = exec_div_trunc(dxq, bounds.width as i128);
                    let fine: bool = state.pressed_modifiers.matches(self.modifier_keys);
                    let mv: i128 = if fine {
                        exec_div_trunc(base * (self.modifier_scalar as i128), UNIT as i128)
                    } else {
                        base
                    };
                    let cn: i64 = exec_sat_add_i64(state.continuous_normal, mv);
                    state.continuous_normal = cn;
                    state.prev_drag_x = cursor.x;
                    Option::Some((self.id, Normal::new(cn)))
                } else {
                    Option::None
                }
            },
            Event::ModifiersChanged { modifiers } => {
                state.pressed_modifiers = modifiers;
                Option::None
            },
        }
    }

    /// Law: a drag that overshoots the lower end and reverses recovers
    /// exactly when the winding passes the overshoot back: the emitted
    /// normal is the clamped accumulator, so it stays at the boundary
    /// while the accumulator is below it and moves again as soon as the
    /// accumulator re-enters the range.
    pub proof fn lemma_drag_boundary_recovery(c0: int, d1: int, d2: int)
        requires
            c0 + d1 < 0,
            0 < c0 + d1 + d2 <= UNIT,
            i64::MIN <= c0 + d1,
            c0 + d1 + d2 <= i64::MAX,
        ensures
            clamped_unit(sat_add_i64(c0, d1)) == 0,
            clamped_unit(sat_add_i64(sat_add_i64(c0, d1), d2)) == c0 + d1 + d2,
            clamped_unit(sat_add_i64(sat_add_i64(c0, d1), d2)) > 0,
    {
    }
}

/// The renderer of an [`HSlider`]: a drawing backend implements this to
/// turn the slider's current position into its own drawable output.
///
/// The host guarantees that the normal and the drag flag it passes are
/// the ones of the latest accepted gesture step; the core asks nothing
/// of what `draw` produces.
pub trait Renderer {
    /// The style the backend supports.
    type Style;

    /// What the backend draws into.
    type Output;

    /// Draws a slider: its bounds, the cursor, the current position,
    /// whether it is being dragged, its tick marks if any, and its
    /// style.
    fn draw(
        &mut self,
        bounds: Bounds,
        cursor: Point,
        normal: Normal,
        is_dragging: bool,
        tick_marks: Option<&TickMarkGroup>,
        style: &Self::Style,
    ) -> Self::Output;
}

/// The magnitude of a truncating quotient never exceeds the magnitude
/// of a numerator bound.
proof fn lemma_div_trunc_bound(num: int, den: int, bound: int)
    requires
        -bound <= num <= bound,
        0 <= bound,
    ensures
        -bound <= div_trunc(num, den) <= bound,
{
    if den != 0 {
        let nm = if num >= 0 {
            num
        } else {
            -num
        };
        let dm = if den >= 0 {
            den
        } else {
            -den
        };
        vstd::arithmetic::div_mod::lemma_div_nonincreasing(nm, dm);
        vstd::arithmetic::div_mod::lemma_div_pos_is_pos(nm, dm);
    }
}

/// The movement delta of one pointer event fits well inside the range
/// the saturating accumulator accepts.
proof fn lemma_delta_bounded(dxq: int, width: int, scalar: int)
    requires
        -0x4000_0000_0000_0000_0000_0000 <= dxq <= 0x4000_0000_0000_0000_0000_0000,
        0 <= scalar <= UNIT,
    ensures
        -0x4000_0000_0000_0000_0000_0000_0000_0000 < div_trunc(dxq, width)
            < 0x4000_0000_0000_0000_0000_0000_0000_0000,
        -0x4000_0000_0000_0000_0000_0000_0000_0000 < div_trunc(dxq, width) * scalar
            < 0x4000_0000_0000_0000_0000_0000_0000_0000,
        -0x4000_0000_0000_0000_0000_0000_0000_0000 < div_trunc(
            div_trunc(dxq, width) * scalar,
            UNIT as int,
        ) < 0x4000_0000_0000_0000_0000_0000_0000_0000,
{
    let big = 0x4000_0000_0000_0000_0000_0000int;
    lemma_div_trunc_bound(dxq, width, big);
    let base = div_trunc(dxq, width);
    assert(-0x4000_0000_0000_0000_0000_0000_0000_0000 < base * scalar
        < 0x4000_0000_0000_0000_0000_0000_0000_0000) by (nonlinear_arith)
        requires
            -0x4000_0000_0000_0000_0000_0000 <= base <= 0x4000_0000_0000_0000_0000_0000 && 0
                <= scalar <= 1_000_000,
    ;
    lemma_div_trunc_bound(base * scalar, UNIT as int, 0x4000_0000_0000_0000_0000_0000_0000_0000
        - 1);
}

} // verus!
