//! A decoder for TIFF images, working on the bytes of a file held in memory.
//!
//! The byte-level reader, the image file directories, the tag values, the
//! samples and the decoder itself are verified against contracts over
//! mathematical models of the file's bytes.

pub mod stream;
pub mod tags;
pub mod error;
pub mod ifd;
pub mod tag_reader;
pub mod image;
pub mod samples;
pub mod packbits;
pub mod result;
pub mod decoder;
