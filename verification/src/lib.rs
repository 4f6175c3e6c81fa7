//! A library for reading and writing TIFF 6.0 files.
//!
//! The codec turns the byte-level, endian-sensitive, offset-threaded TIFF
//! structure into a typed in-memory model and back.  All parsing and layout
//! logic operates on in-memory byte vectors; callers supply the bytes of a
//! file and receive the bytes to be written out.

pub mod endian;
pub mod error;
pub mod ifd;
pub mod image;
pub mod laws;
pub mod reader;
pub mod tag;
pub mod tiff;
pub mod value;
pub mod writer;

pub use endian::BE;
pub use endian::LE;
pub use error::TiffError;
pub use reader::TIFFReader;
pub use image::baseline::Image;
pub use tiff::TIFF;
pub use writer::TIFFWriter;
