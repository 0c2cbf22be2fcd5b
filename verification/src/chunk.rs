//! The chunks of a multi-pack index file: the table of contents that
//! locates them, and the decoders for the fanout and pack-name chunks.

pub mod fanout;
pub mod pack_names;
pub mod table;
