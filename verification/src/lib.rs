//! A verified Mandelbrot-set rasteriser.
//!
//! The engine maps every pixel of an image to a point of a rectangular
//! window in the complex plane, computes how quickly the orbit of that
//! point under `z -> z*z + c` leaves the disk of radius 2, and turns
//! the iteration count into an 8-bit luminance value. Plane coordinates
//! are held in signed 32.32 fixed-point form, so the whole computation
//! is exact integer arithmetic and every stage carries a proved
//! contract: the pixel-to-plane mapping, the escape iteration against
//! its orbit model, the row renderer, the sequential renderer, and the
//! reassembly of independently computed rows into one row-major buffer.
//!
//! Argument parsing, PNG encoding, file output and the worker threads
//! of the parallel driver live outside the library: workers call
//! [`render_line`] and hand their index-tagged rows to
//! [`assemble_rows`], whose contract — together with
//! `render::lemma_assembly_matches_sequential` — makes the final buffer
//! independent of completion order.

pub mod complex;
pub mod errors;
pub mod escape;
pub mod fixed;
pub mod plane;
pub mod render;

pub use complex::ComplexPoint;
pub use errors::RenderError;
pub use escape::{escape_time, escape_time_limit, MAX_ITER};
pub use fixed::Fx;
pub use plane::Dimen;
pub use render::{assemble_rows, luminance, render, render_line, RowResult};
