use vstd::prelude::*;
use crate::bytes::{le_u32, u32_at, push_u32, lemma_u32_roundtrip, lemma_u32_bytes};
use crate::cursor::{ByteCursor, IoError};
use crate::pfs::error::{Error, io_error};

verus! {

/// An index entry: which file (by the CRC of its name) starts where, and how
/// large it is once decompressed.
#[derive(Debug, Default, Clone, Copy, PartialEq, Eq, Structural)]
pub struct IndexEntry {
    pub filename_crc: u32,
    pub data_offset: u32,
    pub uncompressed_size: u32,
}

impl IndexEntry {
    /// The CRC that the game's own `.s3d` files use for the directory file. It is not
    /// known to be the CRC of any name; EQZip writes 0xffffffff instead.
    pub const DIRECTORY_CRC: u32 = 0x61580ac9;

    pub open spec fn spec_to_bytes(self) -> Seq<u8> {
        le_u32(self.filename_crc) + le_u32(self.data_offset) + le_u32(self.uncompressed_size)
    }

    /// The entry stored in the first 12 bytes of `s`.
    pub open spec fn decode(s: Seq<u8>) -> IndexEntry {
        IndexEntry {
            filename_crc: u32_at(s, 0),
            data_offset: u32_at(s, 4),
            uncompressed_size: u32_at(s, 8),
        }
    }

    pub fn read(reader: &mut ByteCursor) -> (r: Result<Self, Error>)
        ensures
            final(reader).data() == old(reader).data(),
            old(reader).rest().len() < 12 ==> r == Err::<Self, Error>(Error::IO(IoError::UnexpectedEof))
                && final(reader).pos() == old(reader).data().len(),
            old(reader).rest().len() >= 12 ==> r == Ok::<Self, Error>(Self::decode(old(reader).rest()))
                && final(reader).pos() == old(reader).pos() + 12,
    {
        let filename_crc = match reader.read_u32() {
            Ok(v) => v,
            Err(e) => return Err(io_error(e)),
        };
        let data_offset = match reader.read_u32() {
            Ok(v) => v,
            Err(e) => return Err(io_error(e)),
        };
        let uncompressed_size = match reader.read_u32() {
            Ok(v) => v,
            Err(e) => return Err(io_error(e)),
        };
        Ok(IndexEntry { filename_crc, data_offset, uncompressed_size })
    }

    /// Reads the entry stored at the start of `input`; returns it with the
    /// bytes that follow, or `None` when fewer than 12 bytes are there.
    pub fn parse(input: &[u8]) -> (r: Option<(&[u8], Self)>)
        ensures
            input@.len() >= 12 ==> (r matches Some((rest, e)) && e == Self::decode(input@) && rest@ == input@.skip(12)),
            input@.len() < 12 ==> r is None,
    {
        if input.len() < 12 {
            return None;
        }
        let e = IndexEntry {
            filename_crc: crate::bytes::read_u32(input, 0),
            data_offset: crate::bytes::read_u32(input, 4),
            uncompressed_size: crate::bytes::read_u32(input, 8),
        };
        Some((crate::wld::parse::rest(input, 12), e))
    }

    pub fn to_bytes(&self) -> (r: Vec<u8>)
        ensures
            r@ == self.spec_to_bytes(),
    {
        let mut out = Vec::new();
        push_u32(&mut out, self.filename_crc);
        push_u32(&mut out, self.data_offset);
        push_u32(&mut out, self.uncompressed_size);
        proof {
            assert(out@ =~= self.spec_to_bytes());
        }
        out
    }
}

/// Reading back a serialized entry gives the same entry.
pub proof fn lemma_index_entry_roundtrip(e: IndexEntry, rest: Seq<u8>)
    ensures
        IndexEntry::decode(e.spec_to_bytes() + rest) == e,
        e.spec_to_bytes().len() == 12,
{
    lemma_u32_roundtrip(e.filename_crc);
    lemma_u32_roundtrip(e.data_offset);
    lemma_u32_roundtrip(e.uncompressed_size);
}

/// Serializing the entry read from `s` gives back the 12 bytes it was read from.
pub proof fn lemma_index_entry_bytes(s: Seq<u8>)
    requires
        s.len() >= 12,
    ensures
        IndexEntry::decode(s).spec_to_bytes() == s.take(12),
{
    lemma_u32_bytes(s, 0);
    lemma_u32_bytes(s, 4);
    lemma_u32_bytes(s, 8);
    assert(IndexEntry::decode(s).spec_to_bytes() =~= s.take(12));
}

} // verus!
