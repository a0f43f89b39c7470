//! Approximates a target raster image by hill climbing: random shapes are
//! painted onto a working canvas, and a candidate canvas is kept only when it
//! is strictly closer to the target.
pub mod canvas;
pub mod fitness;
pub mod objects;
pub mod random;
pub mod raster;
pub mod search;
