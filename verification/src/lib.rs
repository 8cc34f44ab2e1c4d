//! Verified core of a Mandelbrot-set renderer.
//!
//! The crate holds everything about the picture that can be said in exact
//! arithmetic: the raster and the order in which it is swept, the linear map
//! from pixels onto a rectangle of the complex plane, the escape-time rule and
//! the grayscale shade derived from an iteration count. Evaluating an orbit in
//! machine floating point and putting pixels on a screen are left to the
//! caller, which feeds this crate booleans and iteration counts.

pub mod escape;
pub mod frame;
pub mod orbit;
pub mod plane;
pub mod raster;
pub mod scene;
pub mod shade;
