//! A JPEG 2000 (ITU-T T.800 | ISO/IEC 15444-1) decoding library.
//!
//! The crate covers the JP2 box-structured file format and the core of the
//! codestream decoding pipeline: packed bit extraction, the MQ arithmetic
//! decoder, tag-tree decoding for packet headers, the EBCOT bit-plane coder,
//! and the reversible 5-3 inverse wavelet transform.
//!
//! All parsing works on in-memory byte sequences; reading those bytes from a
//! file or socket is left to the caller.

pub mod bit_reader;
pub mod bytes;
pub mod code_block;
pub mod coder;
pub mod colour_specification;
pub mod dwt;
pub mod jp2;
pub mod shared;
pub mod tag_tree;
