//! Readers and writers for EverQuest data files: the PFS (`.s3d`) archive
//! container and the fragments of the WLD world format.
pub mod bytes;
pub mod cursor;
pub mod text;
pub mod zlib;
pub mod sort;
pub mod pfs;
pub mod archive;
pub mod wld;
