use vstd::prelude::*;
use crate::bytes::{le_u32, push_u32};
use crate::cursor::{ByteCursor, IoError};
use crate::pfs::block_header::BlockHeader;
use crate::pfs::error::{Error, io_error};

verus! {

/// One zlib-compressed block of a file, as stored after its header.
#[derive(Debug, Default, Clone)]
pub struct Block {
    pub uncompressed_size: u32,
    pub compressed_data: Vec<u8>,
}

impl Block {
    /// The serialized form: the header (sizes) followed by the compressed data.
    pub open spec fn spec_to_bytes(&self) -> Seq<u8> {
        le_u32(self.compressed_data@.len() as u32) + le_u32(self.uncompressed_size)
            + self.compressed_data@
    }

    /// Reads the `header.compressed_size` bytes of data that follow a header.
    pub fn read(header: BlockHeader, reader: &mut ByteCursor) -> (r: Result<Self, Error>)
        ensures
            final(reader).data() == old(reader).data(),
            header.compressed_size <= old(reader).rest().len() ==> r is Ok && r->Ok_0.uncompressed_size
                == header.uncompressed_size && r->Ok_0.compressed_data@ == old(reader).rest().take(
                header.compressed_size as int,
            ) && final(reader).pos() == old(reader).pos() + header.compressed_size,
            header.compressed_size > old(reader).rest().len() ==> (r matches Err(Error::IO(
                IoError::UnexpectedEof,
            ))) && final(reader).pos() == old(reader).data().len(),
    {
        let compressed_data = match reader.read_exact(header.compressed_size as usize) {
            Ok(v) => v,
            Err(e) => return Err(io_error(e)),
        };
        Ok(Block { uncompressed_size: header.uncompressed_size, compressed_data })
    }

    pub fn to_bytes(&self) -> (r: Vec<u8>)
        ensures
            r@ == self.spec_to_bytes(),
    {
        let mut out = Vec::new();
        push_u32(&mut out, self.compressed_data.len() as u32);
        push_u32(&mut out, self.uncompressed_size);
        let mut i: usize = 0;
        while i < self.compressed_data.len()
            invariant
                i <= self.compressed_data@.len(),
                out@ == le_u32(self.compressed_data@.len() as u32) + le_u32(self.uncompressed_size)
                    + self.compressed_data@.take(i as int),
            decreases self.compressed_data@.len() - i,
        {
            out.push(self.compressed_data[i]);
            i = i + 1;
            assert(out@ =~= le_u32(self.compressed_data@.len() as u32) + le_u32(
                self.uncompressed_size,
            ) + self.compressed_data@.take(i as int));
        }
        proof {
            assert(self.compressed_data@.take(i as int) =~= self.compressed_data@);
        }
        out
    }
}

} // verus!
