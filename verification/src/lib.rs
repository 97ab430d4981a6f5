//! A debugging engine for an abstract-machine interpreter.
//!
//! [`machine`] describes what can be observed of the interpreter. The
//! [`step`] module decides when a running program is paused: it keeps the
//! breakpoint registry and turns each report of the interpreter into the next
//! action of whoever drives it. The [`render`] module turns a paused frame, its
//! values and the memory behind them into markup. [`text`] holds the numerals
//! and escapes that both build on.

pub mod machine;
pub mod render;
pub mod step;
pub mod text;
