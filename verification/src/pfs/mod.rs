//! The PFS archive container (`.s3d`, `.pfs`): a header, zlib-compressed file
//! blocks, an index of CRC-keyed entries and an optional footer.
pub mod error;
pub mod block_header;
pub mod index_entry;
pub mod header;
pub mod footer;
pub mod block;
pub mod directory;
pub mod crc;
pub mod blocks;
pub mod read;
pub mod open_laws;

use vstd::prelude::*;

verus! {

/// The writer of PFS archives.
pub type PfsWriter = crate::archive::write::EqArchiveWriter;

} // verus!
