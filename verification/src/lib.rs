//! Byte-pair frequency maps of binary data.
//!
//! A file is read as a stream of digraphs, 16-bit values made of two
//! adjacent bytes. The library counts how often each digraph occurs,
//! relates every count to the largest one, and maps the resulting
//! frequencies through a brightness and contrast curve to the grey levels
//! of a 256 by 256 picture, one pixel for each possible digraph.

pub mod digraph;
pub mod histogram;
pub mod frequency;
pub mod natural;
pub mod params;
pub mod tone;
pub mod canvas;
pub mod state;
