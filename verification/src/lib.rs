//! Escape-time rendering of the Mandelbrot set into an RGBA frame.
//!
//! The crate holds the renderer without its arithmetic: how often the orbit of
//! a point is advanced and which iteration is recorded for it, how a recorded
//! iteration becomes a grey level, which pixel of the frame a group of bytes
//! belongs to, and what is written into it. The arithmetic on the plane, that
//! is the map from pixels to points and one iteration of an orbit, is handed
//! in by the caller as function values, and every statement made here holds
//! for whatever number type the caller computes with.
//!
//! * [`frame`]: the dimensions of a frame and the order of its pixels.
//! * [`escape`]: the escape-time iteration and the grey level of a point.
//! * [`render`]: painting a frame, pixel by pixel and in parallel.

pub mod escape;
pub mod frame;
pub mod render;
