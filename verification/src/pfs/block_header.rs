use vstd::prelude::*;
use crate::bytes::{le_u32, u32_at, push_u32, lemma_u32_roundtrip, lemma_u32_bytes};
use crate::cursor::{ByteCursor, IoError};
use crate::pfs::error::{Error, io_error, corrupt};

verus! {

/// The 8-byte header in front of every compressed block of a file.
#[derive(Debug, Default, Clone, Copy, PartialEq, Eq, Structural)]
pub struct BlockHeader {
    pub compressed_size: u32,
    pub uncompressed_size: u32,
}

impl BlockHeader {
    /// The most uncompressed data one block may hold (8 KiB).
    pub const MAX_UNCOMPRESSED_SIZE: usize = 8192;

    /// The compressed size should rarely exceed the uncompressed size, but it
    /// can; this leaves a small margin for that case.
    pub const MAX_COMPRESSED_SIZE: usize = 8320;

    /// The serialized form: compressed size then uncompressed size, little-endian.
    pub open spec fn spec_to_bytes(self) -> Seq<u8> {
        le_u32(self.compressed_size) + le_u32(self.uncompressed_size)
    }

    /// The header stored in the first 8 bytes of `s`.
    pub open spec fn decode(s: Seq<u8>) -> BlockHeader {
        BlockHeader { compressed_size: u32_at(s, 0), uncompressed_size: u32_at(s, 4) }
    }

    /// Both sizes respect the format's limits.
    pub open spec fn within_limits(self) -> bool {
        self.compressed_size <= Self::MAX_COMPRESSED_SIZE && self.uncompressed_size
            <= Self::MAX_UNCOMPRESSED_SIZE
    }

    /// Reads a block header, refusing sizes beyond the limits.
    pub fn read(reader: &mut ByteCursor) -> (r: Result<Self, Error>)
        ensures
            final(reader).data() == old(reader).data(),
            old(reader).rest().len() < 8 ==> r == Err::<Self, Error>(Error::IO(IoError::UnexpectedEof))
                && final(reader).pos() == old(reader).data().len(),
            old(reader).rest().len() >= 8 ==> {
                let h = Self::decode(old(reader).rest());
                &&& final(reader).pos() == old(reader).pos() + 8
                &&& h.within_limits() ==> r == Ok::<Self, Error>(h)
                &&& !h.within_limits() ==> r matches Err(Error::CorruptArchive(_))
            },
    {
        let compressed_size = match reader.read_u32() {
            Ok(v) => v,
            Err(e) => return Err(io_error(e)),
        };
        let uncompressed_size = match reader.read_u32() {
            Ok(v) => v,
            Err(e) => return Err(io_error(e)),
        };
        if compressed_size as usize > Self::MAX_COMPRESSED_SIZE {
            return Err(corrupt("block compressed size too large"));
        }
        if uncompressed_size as usize > Self::MAX_UNCOMPRESSED_SIZE {
            return Err(corrupt("block uncompressed size too large"));
        }
        Ok(BlockHeader { compressed_size, uncompressed_size })
    }

    pub fn to_bytes(&self) -> (r: Vec<u8>)
        ensures
            r@ == self.spec_to_bytes(),
    {
        let mut out = Vec::new();
        push_u32(&mut out, self.compressed_size);
        push_u32(&mut out, self.uncompressed_size);
        proof {
            assert(out@ =~= self.spec_to_bytes());
        }
        out
    }
}

/// Reading back a serialized header gives the same header.
pub proof fn lemma_block_header_roundtrip(h: BlockHeader, rest: Seq<u8>)
    ensures
        BlockHeader::decode(h.spec_to_bytes() + rest) == h,
        h.spec_to_bytes().len() == 8,
{
    lemma_u32_roundtrip(h.compressed_size);
    lemma_u32_roundtrip(h.uncompressed_size);
}

/// Serializing the header read from `s` gives back the 8 bytes it was read from.
pub proof fn lemma_block_header_bytes(s: Seq<u8>)
    requires
        s.len() >= 8,
    ensures
        BlockHeader::decode(s).spec_to_bytes() == s.take(8),
{
    lemma_u32_bytes(s, 0);
    lemma_u32_bytes(s, 4);
    assert(BlockHeader::decode(s).spec_to_bytes() =~= s.take(8));
}

} // verus!
