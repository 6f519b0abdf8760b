//! Fixed-width big-endian encoding and decoding over a borrowed byte region.
//!
//! `ByteBufMut` writes unsigned integers of 8, 16, 32 and 64 bits one after
//! another into a region and reports how many bytes of each fitted;
//! `ByteBuf` reads them back, all or nothing. The two share one byte
//! layout, stated in `encoding`, and the facts that relate them are proved
//! in `lemmas`.

pub mod encoding;
pub mod lemmas;
pub mod reader;
pub mod writer;

pub use reader::ByteBuf;
pub use writer::ByteBufMut;
