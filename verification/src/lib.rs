//! Encoder for the wire protocol of a small LED-matrix sign.
//!
//! The library models one display slot ([`unit::Bitmap`]), rasterizes glyphs
//! into the sign's 11-row cells ([`raster`]), aggregates up to eight slots
//! into the device's wire-format byte stream ([`encoder`]), and splits that
//! stream into fixed-size transport chunks ([`framer`]). Device discovery and
//! transmission are the caller's concern; everything here is a pure
//! transformation on bytes.

pub mod encoder;
pub mod framer;
pub mod mode;
pub mod raster;
pub mod unit;
