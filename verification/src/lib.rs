//! The verified core of a viewer for polygonal models: reading a model from
//! its text, fitting it to the viewing volume, and the state that turns input
//! events into work on the transforms.
//!
//! The arithmetic on binary32 numbers (matrix products, rotations, the
//! projection) is done by the caller. This crate holds such a number by its
//! bit pattern where it has to store, order or clamp one, and says in
//! commands which arithmetic is due.
//!
//! - `text`: words, numbers and vertex references in a piece of text.
//! - `parse_obj`: the lines of a model, its faces cut into triangles.
//! - `area`: that cutting a polygon into its fan keeps its area.
//! - `single`: binary32 values by their bits, their order, negation, clamping.
//! - `model`: the box around a model and the extent that its scale goes by.
//! - `transform`: the state of a view and what each event asks for.

pub mod area;
pub mod model;
pub mod parse_obj;
pub mod single;
pub mod text;
pub mod transform;
