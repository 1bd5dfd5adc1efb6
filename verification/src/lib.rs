//! # BRAG — the Blue-Red-Alpha-Green pixel format
//!
//! Byte layout of one pixel: `[B, R, A, G]`.  Alpha sits next to both
//! red and green.
//!
//! - [`format`]: channel orderings and where alpha stands in them;
//! - [`pixel`]: the `Bra` and `Brag` pixel types;
//! - [`swizzle`]: conversion of byte buffers between BRAG and RGBA/BGRA;
//! - [`composite`]: premultiplication and Porter-Duff SrcOver on BRAG buffers;
//! - [`interop`]: conversion between two formats chosen by descriptor.

pub mod format;
pub mod composite;
pub mod pixel;
pub mod swizzle;
pub mod interop;

pub use format::{
    is_optimal, Channel, PixelFormat, ABGR, ARGB, BGR, BGRA, BRAG, BRG, LEGACY_ARGB,
    LEGACY_BGRA, LEGACY_RGBA, OPTIMAL, RGB, RGBA, UNFORTUNATE,
};
pub use pixel::{Bra, Brag, BragPixel, BRAG8};
