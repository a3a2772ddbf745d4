//! A double-buffered terminal rendering core.
//!
//! Applications describe each frame declaratively by drawing into a [`canvas::Canvas`]
//! through a [`frame::Frame`]; the [`diff`] reconciler then computes the minimal set of
//! styled runs that turns the previously shown canvas into the new one, and the
//! [`terminal::Terminal`] driver runs that cycle end to end.

pub mod apply;
pub mod canvas;
pub mod cell;
pub mod diff;
pub mod frame;
pub mod geometry;
pub mod style;
pub mod terminal;
pub mod widgets;
pub mod width;
