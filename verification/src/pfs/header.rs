use vstd::prelude::*;
use crate::bytes::{le_u32, u32_at, push_u32, lemma_u32_roundtrip, lemma_u32_bytes};
use crate::cursor::{ByteCursor, IoError};
use crate::pfs::error::{Error, io_error};

verus! {

/// The 12-byte archive header.
#[derive(Debug, Clone, Copy, PartialEq, Eq, Structural)]
pub struct Header {
    /// Where the index section starts.
    pub index_offset: u32,
    pub magic_number: u32,
    pub version: u32,
}

impl Header {
    /// `b"PFS "` read as a little-endian `u32`.
    pub const MAGIC_NUMBER: u32 = 0x20534650;
    pub const VERSION: u32 = 0x00020000;
    pub const SIZE: u32 = 12;

    pub open spec fn spec_to_bytes(self) -> Seq<u8> {
        le_u32(self.index_offset) + le_u32(self.magic_number) + le_u32(self.version)
    }

    pub open spec fn decode(s: Seq<u8>) -> Header {
        Header { index_offset: u32_at(s, 0), magic_number: u32_at(s, 4), version: u32_at(s, 8) }
    }

    /// A header with index offset 0 and the supported magic number and version.
    pub fn default() -> (r: Self)
        ensures
            r == (Header { index_offset: 0, magic_number: Self::MAGIC_NUMBER, version: Self::VERSION }),
    {
        Header { index_offset: 0, magic_number: Self::MAGIC_NUMBER, version: Self::VERSION }
    }

    pub fn read(reader: &mut ByteCursor) -> (r: Result<Self, Error>)
        ensures
            final(reader).data() == old(reader).data(),
            old(reader).rest().len() < 12 ==> r == Err::<Self, Error>(Error::IO(IoError::UnexpectedEof))
                && final(reader).pos() == old(reader).data().len(),
            old(reader).rest().len() >= 12 ==> r == Ok::<Self, Error>(Self::decode(old(reader).rest()))
                && final(reader).pos() == old(reader).pos() + 12,
    {
        let index_offset = match reader.read_u32() {
            Ok(v) => v,
            Err(e) => return Err(io_error(e)),
        };
        let magic_number = match reader.read_u32() {
            Ok(v) => v,
            Err(e) => return Err(io_error(e)),
        };
        let version = match reader.read_u32() {
            Ok(v) => v,
            Err(e) => return Err(io_error(e)),
        };
        Ok(Header { index_offset, magic_number, version })
    }

    pub fn to_bytes(&self) -> (r: Vec<u8>)
        ensures
            r@ == self.spec_to_bytes(),
    {
        let mut out = Vec::new();
        push_u32(&mut out, self.index_offset);
        push_u32(&mut out, self.magic_number);
        push_u32(&mut out, self.version);
        proof {
            assert(out@ =~= self.spec_to_bytes());
        }
        out
    }
}

/// Reading back a serialized header gives the same header.
pub proof fn lemma_header_roundtrip(h: Header, rest: Seq<u8>)
    ensures
        Header::decode(h.spec_to_bytes() + rest) == h,
        h.spec_to_bytes().len() == 12,
{
    lemma_u32_roundtrip(h.index_offset);
    lemma_u32_roundtrip(h.magic_number);
    lemma_u32_roundtrip(h.version);
}

/// Serializing the header read from `s` gives back the 12 bytes it was read from.
pub proof fn lemma_header_bytes(s: Seq<u8>)
    requires
        s.len() >= 12,
    ensures
        Header::decode(s).spec_to_bytes() == s.take(12),
{
    lemma_u32_bytes(s, 0);
    lemma_u32_bytes(s, 4);
    lemma_u32_bytes(s, 8);
    assert(Header::decode(s).spec_to_bytes() =~= s.take(12));
}

} // verus!
