//! Verified core of the quote image generator.
pub mod lexical;
pub mod json;
pub mod parser;
pub mod color;
pub mod primitives;
pub mod entities;
pub mod templater;
pub mod style;
pub mod layout;
pub mod readback;
pub mod emoji;
pub mod compressor;
pub mod spoiler;
pub mod framing;
pub mod dsl;
