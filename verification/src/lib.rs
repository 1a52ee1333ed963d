//! Recolor a raster image so that every pixel becomes the nearest color of a
//! caller-selected set of fixed palettes (the four Nord color schemes).
//!
//! The crate has two parts: a palette registry ([`colors`]) that resolves
//! scheme names such as `"frost"` to their constant color lists, and a
//! recolor engine ([`engine`]) that maps each pixel of a grid to the closest
//! candidate color under the L1 (Manhattan) distance in RGB space, breaking
//! ties toward the lowest candidate index.

pub mod colors;
pub mod engine;
