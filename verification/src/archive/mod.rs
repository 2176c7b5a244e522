//! The archive front end. The reader and the records are those of the PFS
//! module; this module adds the writer and the whole-archive parser.
use vstd::prelude::*;

pub mod write;
pub mod parser;
pub mod laws;
pub mod parser_laws;
pub mod block_map;

pub use crate::pfs::block::Block;
pub use crate::pfs::block_header::BlockHeader;
pub use crate::pfs::crc::FilenameCrc;
pub use crate::pfs::directory::Directory;
pub use crate::pfs::error::Error;
pub use crate::pfs::header::Header;
pub use crate::pfs::index_entry::IndexEntry;
pub use crate::pfs::read::FileInfo;
pub use parser::{Archive, Footer};
pub use write::EqArchiveWriter;

verus! {

/// Reader of an archive; the same reader as the PFS module's.
pub type EqArchiveReader = crate::pfs::read::PfsReader;

/// Information about an archive as a whole.
pub type ArchiveInfo = crate::pfs::read::PfsInfo;

/// The contents of one archived file, ready to be read.
pub type EqFileReader = crate::pfs::read::PfsFileReader;

} // verus!
