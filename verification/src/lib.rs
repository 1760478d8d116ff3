//! Verified core of a DSD (1-bit audio) to PCM conversion stack.
pub mod bits;
pub mod decimator;
pub mod buffer;
pub mod dst;
pub mod codec;
pub mod dsd_file;
pub mod dither;
pub mod converter;
