//! Raster layout for a Mandelbrot renderer: how an image is cut into bands of
//! rows, how a band of pixels is filled, and how the finished buffer is laid
//! out as bytes.
//!
//! The numeric kernel (mapping a pixel to a point of the plane, iterating the
//! quadratic map, turning a count into a colour) works on floating-point
//! values and is supplied by the caller as closures; everything that depends
//! only on integers is here, with its contract.

pub mod bands;
pub mod bytes;
pub mod layout;
pub mod parse;
pub mod raster;
