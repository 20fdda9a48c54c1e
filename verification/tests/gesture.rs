//! Tests for the drag-gesture state machine and click classification.

use audio_params::Bounds;
use audio_params::Click;
use audio_params::ClickKind;
use audio_params::Event;
use audio_params::FloatParam;
use audio_params::HSlider;
use audio_params::ModifiersState;
use audio_params::Normal;
use audio_params::Param;
use audio_params::Point;
use audio_params::State;

fn fixture() -> (FloatParam<u32>, State, HSlider<u32>, Bounds) {
    // Values in millionths over [0, 1]: the value and the normal agree.
    let param = FloatParam::new(9u32, 0, 1_000_000, 500_000, 250_000);
    let state = State::new(&param);
    let slider = HSlider::new(&param);
    // A widget one hundred pixels wide.
    let bounds = Bounds { x: 0, y: 0, width: 100_000_000, height: 14_000_000 };
    (param, state, slider, bounds)
}

fn press(time_ms: u64) -> Event {
    Event::Pressed { time_ms }
}

#[test]
fn click_classification_cycles() {
    let p = Point { x: 5, y: 5 };
    let first = Click::new(p, 0, None);
    assert_eq!(first.kind(), ClickKind::Single);
    let second = Click::new(p, 100, Some(first));
    assert_eq!(second.kind(), ClickKind::Double);
    let third = Click::new(p, 200, Some(second));
    assert_eq!(third.kind(), ClickKind::Triple);
    let fourth = Click::new(p, 300, Some(third));
    assert_eq!(fourth.kind(), ClickKind::Double);
}

#[test]
fn click_breaks_on_distance_or_delay() {
    let p = Point { x: 5, y: 5 };
    let first = Click::new(p, 0, None);
    let moved = Click::new(Point { x: 6, y: 5 }, 100, Some(first));
    assert_eq!(moved.kind(), ClickKind::Single);
    let late = Click::new(p, 301, Some(first));
    assert_eq!(late.kind(), ClickKind::Single);
}

#[test]
fn single_press_starts_drag_without_emitting() {
    let (_, mut state, slider, bounds) = fixture();
    let cursor = Point { x: 50_000_000, y: 7_000_000 };
    let out = slider.on_event(&mut state, press(0), bounds, cursor);
    assert!(out.is_none());
    assert!(state.is_dragging);
    assert_eq!(state.prev_drag_x, 50_000_000);
}

#[test]
fn press_outside_bounds_is_ignored() {
    let (_, mut state, slider, bounds) = fixture();
    let cursor = Point { x: 200_000_000, y: 7_000_000 };
    let out = slider.on_event(&mut state, press(0), bounds, cursor);
    assert!(out.is_none());
    assert!(!state.is_dragging);
    assert!(state.last_click.is_none());
}

#[test]
fn double_click_resets_to_default() {
    let (_, mut state, slider, bounds) = fixture();
    let cursor = Point { x: 50_000_000, y: 7_000_000 };
    let first = slider.on_event(&mut state, press(0), bounds, cursor);
    assert!(first.is_none());
    let second = slider.on_event(&mut state, press(100), bounds, cursor);
    let (id, normal) = second.expect("a double click emits the default");
    assert_eq!(id, 9);
    assert_eq!(normal.value(), 250_000);
    assert!(!state.is_dragging);
    // Not dragging afterwards: a move emits nothing.
    let moved = slider.on_event(
        &mut state,
        Event::CursorMoved,
        bounds,
        Point { x: 60_000_000, y: 7_000_000 },
    );
    assert!(moved.is_none());
}

#[test]
fn drag_converts_covered_width_into_normal_change() {
    let (_, mut state, slider, bounds) = fixture();
    slider.on_event(&mut state, press(0), bounds, Point { x: 50_000_000, y: 7_000_000 });
    // Ten pixels right on a hundred-pixel widget: a tenth of the range.
    let out = slider.on_event(
        &mut state,
        Event::CursorMoved,
        bounds,
        Point { x: 60_000_000, y: 7_000_000 },
    );
    let (_, normal) = out.expect("dragging emits an update");
    assert_eq!(normal.value(), 600_000);
    // The anchor advanced: the next delta is incremental.
    let out = slider.on_event(
        &mut state,
        Event::CursorMoved,
        bounds,
        Point { x: 55_000_000, y: 7_000_000 },
    );
    let (_, normal) = out.expect("dragging emits an update");
    assert_eq!(normal.value(), 550_000);
}

#[test]
fn drag_boundary_overshoot_recovers_through_accumulator() {
    let (_, mut state, slider, bounds) = fixture();
    slider.on_event(&mut state, press(0), bounds, Point { x: 50_000_000, y: 7_000_000 });
    // 110 pixels left: the accumulator lands at -0.6, the emitted normal at 0.
    let out = slider.on_event(
        &mut state,
        Event::CursorMoved,
        bounds,
        Point { x: -60_000_000, y: 7_000_000 },
    );
    assert_eq!(out.unwrap().1.value(), 0);
    assert_eq!(state.continuous_normal, -600_000);
    // 50 pixels back right: still below zero, the normal must not move yet.
    let out = slider.on_event(
        &mut state,
        Event::CursorMoved,
        bounds,
        Point { x: -10_000_000, y: 7_000_000 },
    );
    assert_eq!(out.unwrap().1.value(), 0);
    assert_eq!(state.continuous_normal, -100_000);
    // 20 more pixels right: the winding passed the overshoot, motion resumes.
    let out = slider.on_event(
        &mut state,
        Event::CursorMoved,
        bounds,
        Point { x: 10_000_000, y: 7_000_000 },
    );
    assert_eq!(out.unwrap().1.value(), 100_000);
}

#[test]
fn release_resynchronizes_accumulator() {
    let (_, mut state, slider, bounds) = fixture();
    slider.on_event(&mut state, press(0), bounds, Point { x: 50_000_000, y: 7_000_000 });
    slider.on_event(&mut state, Event::CursorMoved, bounds, Point { x: -60_000_000, y: 7_000_000 });
    assert_eq!(state.continuous_normal, -600_000);
    let out = slider.on_event(&mut state, Event::Released, bounds, Point { x: 0, y: 0 });
    assert!(out.is_none());
    assert!(!state.is_dragging);
    // Back to the parameter's normal the slider was built with.
    assert_eq!(state.continuous_normal, 500_000);
}

#[test]
fn modifier_key_scales_drag_delta() {
    let (_, mut state, slider, bounds) = fixture();
    slider.on_event(&mut state, press(0), bounds, Point { x: 50_000_000, y: 7_000_000 });
    let out = slider.on_event(
        &mut state,
        Event::ModifiersChanged {
            modifiers: ModifiersState { control: true, ..ModifiersState::default() },
        },
        bounds,
        Point { x: 50_000_000, y: 7_000_000 },
    );
    assert!(out.is_none());
    // Fifty pixels right would be half the range; the default modifier
    // scalar shrinks it to a fiftieth of that.
    let out = slider.on_event(
        &mut state,
        Event::CursorMoved,
        bounds,
        Point { x: 100_000_000, y: 7_000_000 },
    );
    assert_eq!(out.unwrap().1.value(), 510_000);
}

#[test]
fn custom_modifier_scalar_and_keys() {
    let (param, _, _, bounds) = fixture();
    let slider = HSlider::new(&param)
        .modifier_keys(ModifiersState { shift: true, ..ModifiersState::default() })
        .modifier_scalar(500_000);
    let mut state = State::new(&param);
    slider.on_event(&mut state, press(0), bounds, Point { x: 50_000_000, y: 7_000_000 });
    slider.on_event(
        &mut state,
        Event::ModifiersChanged {
            modifiers: ModifiersState { shift: true, ..ModifiersState::default() },
        },
        bounds,
        Point { x: 50_000_000, y: 7_000_000 },
    );
    // Ten pixels right at a scalar of one half: a twentieth of the range.
    let out = slider.on_event(
        &mut state,
        Event::CursorMoved,
        bounds,
        Point { x: 60_000_000, y: 7_000_000 },
    );
    assert_eq!(out.unwrap().1.value(), 550_000);
}

#[test]
fn zero_width_bounds_emit_nothing() {
    let (_, mut state, slider, _) = fixture();
    let flat = Bounds { x: 0, y: 0, width: 0, height: 14_000_000 };
    slider.on_event(&mut state, press(0), flat, Point { x: 0, y: 0 });
    assert!(state.is_dragging);
    let out = slider.on_event(&mut state, Event::CursorMoved, flat, Point { x: 5_000_000, y: 0 });
    assert!(out.is_none());
}

#[test]
fn feeding_updates_back_into_the_param() {
    let (mut param, mut state, slider, bounds) = fixture();
    slider.on_event(&mut state, press(0), bounds, Point { x: 50_000_000, y: 7_000_000 });
    let out = slider.on_event(
        &mut state,
        Event::CursorMoved,
        bounds,
        Point { x: 75_000_000, y: 7_000_000 },
    );
    let (id, normal) = out.unwrap();
    assert_eq!(id, param.id());
    param.set_from_normal(normal);
    assert_eq!(param.value(), 750_000);
    assert_eq!(param.normal().value(), 750_000);
}

#[test]
fn state_new_seeds_accumulator_from_param() {
    let param = FloatParam::new(0u32, 0, 2_000_000, 1_500_000, 0);
    let state = State::new(&param);
    assert!(!state.is_dragging);
    assert_eq!(state.continuous_normal, 750_000);
    assert!(state.last_click.is_none());
}
