//! Decisions behind the readback of terminal cameras: which image pipes an
//! entity gets or loses, where each camera renders, how a widget is built
//! from what was read back, and when a camera is resized to fit its widget.
pub mod area;
pub mod targeting;
pub mod readback;
pub mod widget;
