//! Memory layouts that match GLSL's `std140` and `std430` rules byte for byte.
//!
//! A value that goes into a uniform or storage buffer must start on the
//! boundary that its type asks for, and every byte between two values must be
//! written, as a zero. This crate computes where values go and writes them
//! there:
//!
//! - [`rule`] holds the alignment and size of the scalars, vectors and
//!   matrices, the same under both standards;
//! - [`compose`] derives the layout of a struct from its fields and of an
//!   array from its element, where the two standards differ;
//! - [`sizer`] counts the bytes of a sequence of values, and
//!   [`std140::Writer`] writes them into a [`sink::Sink`];
//! - [`padded`] builds the bytes of structs and arrays from those of their
//!   parts.
//!
//! Floating-point numbers are carried as their bits, see [`scalar`]. Values
//! are written in the byte order of the machine, as a GPU reads them.

pub mod align;
pub mod compose;
pub mod image;
pub mod padded;
pub mod rule;
pub mod scalar;
pub mod sink;
pub mod sizer;
pub mod std140;
pub mod stream;
