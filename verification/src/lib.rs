//! A verified transcoder between UTF-8 and UTF-32 byte streams.
//!
//! The crate converts whole byte streams between UTF-8 (the 1-4 byte
//! variable-width encoding) and UTF-32 (4-byte quads in either byte
//! order), and can swap a UTF-32 stream's endianness in place. Each
//! conversion is specified against a mathematical model of the byte
//! stream and proved to follow it.

pub mod codec;
pub mod config;
pub mod stream;
