//! The rule engine of a falling-block puzzle: the shape catalog, the active
//! shape, the well that pieces lock into, and the per-tick decisions.

pub mod catalog;
pub mod grid;
pub mod input;
pub mod laws;
pub mod shape;
pub mod tick;
pub mod well;

pub use catalog::{ShapeKind, ShapeRotation};
pub use input::{Controls, Event};
pub use shape::Shape;
pub use tick::Step;
pub use well::Well;
