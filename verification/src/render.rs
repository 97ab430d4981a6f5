//! Rendering of a paused program: its values, its memory and the table of a
//! frame's locals.

pub mod locals;
pub mod memory;
pub mod value;
