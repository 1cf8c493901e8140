//! Headroom-adaptive tone mapping: the decisions of the tone mapper, verified.
//!
//! Pixel values, weights and headrooms are single-precision numbers. The library
//! holds each of them as its IEEE-754 bit pattern and reasons about the number
//! that the pattern denotes (see `binary32`); the arithmetic on pixel values
//! happens outside the library.
pub mod binary32;
pub mod select;
pub mod tonemap;
pub mod wrapper;
