//! Turns one source image into a platform icon set: a Windows icon container,
//! an Apple icon container and a collection of named PNG files.
//!
//! The pipeline is pure: it takes the bytes of the source image and returns the
//! bytes of every output file. Reading the source and writing the results is
//! left to the caller.

pub mod catalog;
pub mod codec;
pub mod error;
pub mod icns;
pub mod icns_reader;
pub mod ico;
pub mod ico_reader;
pub mod named_png;
pub mod names;
pub mod pipeline;
pub mod pixel;
