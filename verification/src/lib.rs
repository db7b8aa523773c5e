//! A 2D wall-editor engine: a segment store, a geometry kernel, rectangular
//! multi-selection, an editor state machine, and a radial ray-cast visibility
//! sweep, all over exact integer window coordinates.

pub mod component;
pub mod editor;
pub mod geometry;
pub mod raycast;
pub mod selection;
pub mod store;
