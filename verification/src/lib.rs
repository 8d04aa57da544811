//! Mandelbrot set rendering: escape-time colouring of a pixel grid, split into
//! horizontal bands that can be rendered independently.
//!
//! Everything here works on integers and bytes. Arithmetic on the complex plane
//! is supplied by the caller as functions, so that the choice of number
//! representation stays outside the library.

pub mod bands;
pub mod color_schemas;
pub mod escape;
pub mod generator;
pub mod independence;
pub mod models;
pub mod pixels;
