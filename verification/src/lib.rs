//! Fixed-point model of an interactive curve editor: control keys with
//! tangent handles, hit-testing, ordering, spline evaluation and the
//! interaction state machine that edits the key sequence.

pub mod geometry;
pub mod key;
pub mod sequence;
pub mod hermite;
pub mod splines;
pub mod model;
pub mod curve_editor;
pub mod code_viewer;
