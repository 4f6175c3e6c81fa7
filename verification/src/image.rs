//! Image-level facades layered over the reader.

pub mod baseline;
