//! Decoding of ISO base media boxes: length-prefixed, type-tagged units that
//! nest into a tree.
//!
//! A box starts with a four-byte big-endian size and a four-byte type tag.
//! Known tags are decoded into their own variants, known containers are
//! descended into, and every other tag is kept as an opaque box whose payload
//! is skipped. Whatever a decoder reads, it leaves the stream at the end
//! offset that the header declares, so the next sibling is always found where
//! the format says it is.

pub mod endian;
pub mod error;
pub mod ext_cr3;
pub mod fourcc;
pub mod header;
pub mod opaque;
pub mod read_box;
pub mod stream;
pub mod stts;
pub mod tree;

pub use crate::error::BmffError;
pub use crate::ext_cr3::jpeg::JpegBox;
pub use crate::fourcc::FourCC;
pub use crate::header::{read_box_header_ext, BoxHeader};
pub use crate::opaque::OpaqueBox;
pub use crate::read_box::ReadBox;
pub use crate::stream::ByteStream;
pub use crate::stts::{SttsBox, SttsEntry};
pub use crate::tree::{
    read_box_tree, read_boxes, read_next_box, read_payload, read_root_box, BmffBox, BoxKind,
    ContainerBox,
};
