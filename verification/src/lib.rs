//! Parameter mapping and interaction logic for audio-control GUIs.
//!
//! Widgets such as sliders and knobs work in a normalized position space,
//! the closed unit interval, while the parameters they control live in
//! real-world domains: linear ranges, discrete integer steps, logarithmic
//! decibel scales with a stationary zero point, and the ten-octave audio
//! frequency spectrum.  This crate provides the invertible mappings between
//! the two spaces, the drag-gesture state machine that turns pointer motion
//! into normalized value updates, and tick-mark placement along a widget.
//!
//! All positions and values are fixed-point integers counted in millionths,
//! so every mapping is exact and free of rounding surprises; rendering
//! layers convert to their own floating-point units at the boundary.

pub mod h_slider;
pub mod input;
pub mod int_param;
pub mod log_db;
pub mod math;
pub mod normal;
pub mod octave;
pub mod param;
pub mod spectrum;
pub mod tick_marks;

pub use h_slider::Event;
pub use h_slider::HSlider;
pub use h_slider::State;
pub use input::Bounds;
pub use input::Click;
pub use input::ClickKind;
pub use input::ModifiersState;
pub use input::Point;
pub use normal::Normal;
pub use normal::UNIT;
pub use param::Param;
pub use param::FloatParam;
pub use int_param::IntParam;
pub use log_db::LogDBParam;
pub use octave::OctaveParam;
pub use tick_marks::TickMark;
pub use tick_marks::TickMarkGroup;
pub use tick_marks::TickMarkTier;
