//! Walking the chain of blocks that stores one file.
use vstd::prelude::*;
use crate::cursor::ByteCursor;
use crate::pfs::block::Block;
use crate::pfs::block_header::{BlockHeader, lemma_block_header_bytes};
use crate::pfs::error::{Error, Failure, read_matches, corrupt};
use crate::pfs::index_entry::IndexEntry;
use crate::zlib::{zlib_decompressed, zlib_decompress};
use crate::cursor::IoError;

verus! {

/// The bytes of `s` from `n` on; nothing when `n` lies past its end.
pub open spec fn after(s: Seq<u8>, n: int) -> Seq<u8> {
    if 0 <= n <= s.len() {
        s.skip(n)
    } else {
        Seq::empty()
    }
}

/// How many blocks a file of `size` uncompressed bytes may take at most.
pub open spec fn spec_max_blocks(size: u32) -> nat {
    (size as nat + 8191) / 8192
}

/// The common checks on the next block header: `None` when the header may
/// be used, else why not. `remaining` is how many uncompressed bytes are still
/// expected, `budget` how many more blocks are allowed.
pub open spec fn header_failure(s: Seq<u8>, remaining: nat, budget: nat) -> Option<Failure> {
    if s.len() < 8 {
        Some(Failure::Eof)
    } else {
        let h = BlockHeader::decode(s);
        if !h.within_limits() {
            Some(Failure::Corrupt)
        } else if h.uncompressed_size > remaining {
            Some(Failure::Corrupt)
        } else if budget == 0 {
            Some(Failure::Corrupt)
        } else {
            None
        }
    }
}

/// The headers of a file's blocks, skipping over each block's data (a skip
/// past the end of the bytes is no error; the next header read then fails).
pub open spec fn spec_headers(s: Seq<u8>, remaining: nat, budget: nat) -> Result<
    Seq<BlockHeader>,
    Failure,
>
    decreases budget,
{
    if remaining == 0 {
        Ok(Seq::empty())
    } else {
        match header_failure(s, remaining, budget) {
            Some(f) => Err(f),
            None => {
                let h = BlockHeader::decode(s);
                match spec_headers(
                    after(s, 8 + h.compressed_size),
                    (remaining - h.uncompressed_size) as nat,
                    (budget - 1) as nat,
                ) {
                    Ok(rest) => Ok(seq![h] + rest),
                    Err(f) => Err(f),
                }
            },
        }
    }
}

/// The contents of a file: each block read and decompressed in turn, the
/// outputs concatenated.
pub open spec fn spec_file_data(s: Seq<u8>, remaining: nat, budget: nat) -> Result<
    Seq<u8>,
    Failure,
>
    decreases budget,
{
    if remaining == 0 {
        Ok(Seq::empty())
    } else {
        match header_failure(s, remaining, budget) {
            Some(f) => Err(f),
            None => {
                let h = BlockHeader::decode(s);
                if s.len() < 8 + h.compressed_size {
                    Err(Failure::Eof)
                } else {
                    match zlib_decompressed(s.subrange(8, 8 + h.compressed_size)) {
                        Err(k) => Err(Failure::Undecodable(k)),
                        Ok(d) => match spec_file_data(
                            s.skip(8 + h.compressed_size),
                            (remaining - h.uncompressed_size) as nat,
                            (budget - 1) as nat,
                        ) {
                            Ok(rest) => Ok(d + rest),
                            Err(f) => Err(f),
                        },
                    }
                }
            },
        }
    }
}

/// How many bytes a file's blocks (headers and data) take, read as in
/// `spec_file_data` but without decompressing.
pub open spec fn spec_blocks_span(s: Seq<u8>, remaining: nat, budget: nat) -> Result<nat, Failure>
    decreases budget,
{
    if remaining == 0 {
        Ok(0)
    } else {
        match header_failure(s, remaining, budget) {
            Some(f) => Err(f),
            None => {
                let h = BlockHeader::decode(s);
                if s.len() < 8 + h.compressed_size {
                    Err(Failure::Eof)
                } else {
                    match spec_blocks_span(
                        s.skip(8 + h.compressed_size),
                        (remaining - h.uncompressed_size) as nat,
                        (budget - 1) as nat,
                    ) {
                        Ok(n) => Ok((8 + h.compressed_size + n) as nat),
                        Err(f) => Err(f),
                    }
                }
            },
        }
    }
}

/// The bytes of `data` from the entry's data offset on.
pub open spec fn entry_bytes(data: Seq<u8>, e: IndexEntry) -> Seq<u8> {
    after(data, e.data_offset as int)
}

/// The contents of the file that `e` indexes in the archive `data`.
pub open spec fn spec_entry_data(data: Seq<u8>, e: IndexEntry) -> Result<Seq<u8>, Failure> {
    spec_file_data(entry_bytes(data, e), e.uncompressed_size as nat, spec_max_blocks(e.uncompressed_size))
}

/// The block headers of the file that `e` indexes in the archive `data`.
pub open spec fn spec_entry_headers(data: Seq<u8>, e: IndexEntry) -> Result<Seq<BlockHeader>, Failure> {
    spec_headers(entry_bytes(data, e), e.uncompressed_size as nat, spec_max_blocks(e.uncompressed_size))
}

/// The stored blocks (headers and data) of the file that `e` indexes.
pub open spec fn spec_entry_raw(data: Seq<u8>, e: IndexEntry) -> Result<Seq<u8>, Failure> {
    match spec_blocks_span(entry_bytes(data, e), e.uncompressed_size as nat, spec_max_blocks(e.uncompressed_size)) {
        Ok(n) => Ok(entry_bytes(data, e).take(n as int)),
        Err(f) => Err(f),
    }
}

/// Where a walk over a file's blocks stands.
pub struct BlockIterState {
    pub blocks_read: usize,
    pub max_blocks: usize,
    pub uncompressed_read: usize,
    pub uncompressed: usize,
}

impl BlockIterState {
    pub open spec fn remaining(&self) -> nat {
        (self.uncompressed - self.uncompressed_read) as nat
    }

    pub open spec fn budget(&self) -> nat {
        (self.max_blocks - self.blocks_read) as nat
    }

    pub open spec fn inv(&self) -> bool {
        &&& self.uncompressed_read <= self.uncompressed
        &&& self.blocks_read <= self.max_blocks
        &&& self.uncompressed <= u32::MAX
        &&& self.max_blocks <= spec_max_blocks(u32::MAX)
    }

    pub fn new(entry: &IndexEntry) -> (r: Self)
        ensures
            r.inv(),
            r.remaining() == entry.uncompressed_size,
            r.budget() == spec_max_blocks(entry.uncompressed_size),
    {
        let size = entry.uncompressed_size;
        let max_blocks = (size / 8192 + if size % 8192 != 0 { 1u32 } else { 0u32 }) as usize;
        BlockIterState {
            blocks_read: 0,
            max_blocks,
            uncompressed_read: 0,
            uncompressed: size as usize,
        }
    }

    /// Reads the next header, or `None` once all uncompressed bytes are accounted for.
    pub fn next_header(&mut self, reader: &mut ByteCursor) -> (r: Option<Result<BlockHeader, Error>>)
        requires
            old(self).inv(),
        ensures
            final(reader).data() == old(reader).data(),
            final(self).inv(),
            old(self).remaining() == 0 ==> r is None && *final(reader) == *old(reader) && *final(self) == *old(self),
            old(self).remaining() > 0 ==> r is Some && match header_failure(
                old(reader).rest(),
                old(self).remaining(),
                old(self).budget(),
            ) {
                Some(f) => read_matches(r->Some_0, f),
                None => {
                    let h = BlockHeader::decode(old(reader).rest());
                    &&& r->Some_0 == Ok::<BlockHeader, Error>(h)
                    &&& final(reader).pos() == old(reader).pos() + 8
                    &&& final(self).remaining() == old(self).remaining() - h.uncompressed_size
                    &&& final(self).budget() == old(self).budget() - 1
                },
            },
    {
        let remaining = self.uncompressed - self.uncompressed_read;
        if remaining == 0 {
            return None;
        }
        let header = match BlockHeader::read(reader) {
            Ok(h) => h,
            Err(e) => return Some(Err(e)),
        };
        if header.uncompressed_size as usize > remaining {
            return Some(Err(corrupt("block uncompressed size exceeds expected total")));
        }
        if self.blocks_read >= self.max_blocks {
            return Some(Err(corrupt("too many blocks for entry")));
        }
        self.blocks_read = self.blocks_read + 1;
        self.uncompressed_read = self.uncompressed_read + header.uncompressed_size as usize;
        Some(Ok(header))
    }
}

/// Reads the block headers of the file that `entry` indexes, skipping each
/// block's data.
pub fn read_headers(reader: &mut ByteCursor, entry: &IndexEntry) -> (r: Result<Vec<BlockHeader>, Error>)
    ensures
        final(reader).data() == old(reader).data(),
        match spec_headers(after(old(reader).data(), entry.data_offset as int), entry.uncompressed_size as nat, spec_max_blocks(entry.uncompressed_size)) {
            Ok(hs) => r is Ok && r->Ok_0@ == hs,
            Err(f) => read_matches(r, f),
        },
{
    reader.seek(entry.data_offset as usize);
    let mut state = BlockIterState::new(entry);
    let mut headers: Vec<BlockHeader> = Vec::new();
    loop
        invariant
            state.inv(),
            reader.data() == old(reader).data(),
            spec_headers(after(old(reader).data(), entry.data_offset as int), entry.uncompressed_size as nat, spec_max_blocks(entry.uncompressed_size))
                == match spec_headers(reader.rest(), state.remaining(), state.budget()) {
                    Ok(rest) => Ok(headers@ + rest),
                    Err(f) => Err::<Seq<BlockHeader>, Failure>(f),
                },
        decreases state.budget(),
    {
        let ghost s = reader.rest();
        let ghost rem = state.remaining();
        let ghost bud = state.budget();
        let ghost p0 = reader.pos();
        match state.next_header(reader) {
            None => {
                assert(headers@ + Seq::<BlockHeader>::empty() =~= headers@);
                return Ok(headers);
            },
            Some(Err(e)) => return Err(e),
            Some(Ok(h)) => {
                proof {
                    reader.lemma_len_bound();
                    assert(header_failure(s, rem, bud) is None);
                    assert(h == BlockHeader::decode(s));
                    assert(reader.pos() == p0 + 8);
                }
                let skip_to = if reader.position() <= usize::MAX - h.compressed_size as usize {
                    reader.position() + h.compressed_size as usize
                } else {
                    usize::MAX
                };
                reader.seek(skip_to);
                proof {
                    let len = reader.data().len();
                    let c = h.compressed_size as int;
                    assert(p0 <= len);
                    assert(s.len() == len - p0);
                    if p0 + 8 + c <= len {
                        assert(reader.pos() == p0 + 8 + c);
                        assert(reader.rest() =~= s.skip(8 + c));
                    } else {
                        assert(reader.rest() =~= Seq::<u8>::empty());
                    }
                    let tail = spec_headers(reader.rest(), state.remaining(), state.budget());
                    if let Ok(rest) = tail {
                        assert(headers@.push(h) + rest =~= headers@ + (seq![h] + rest));
                    }
                }
                headers.push(h);
            },
        }
    }
}

/// The serialized forms of `blocks`, concatenated.
pub open spec fn blocks_bytes(blocks: Seq<Block>) -> Seq<u8>
    decreases blocks.len(),
{
    if blocks.len() == 0 {
        Seq::empty()
    } else {
        blocks_bytes(blocks.drop_last()) + blocks.last().spec_to_bytes()
    }
}

proof fn lemma_blocks_bytes_push(blocks: Seq<Block>, b: Block)
    ensures
        blocks_bytes(blocks.push(b)) == blocks_bytes(blocks) + b.spec_to_bytes(),
{
    assert(blocks.push(b).drop_last() =~= blocks);
}

/// Reads the blocks (headers and compressed data) of the file that `entry`
/// indexes, without decompressing them.
pub fn read_blocks(reader: &mut ByteCursor, entry: &IndexEntry) -> (r: Result<Vec<Block>, Error>)
    ensures
        final(reader).data() == old(reader).data(),
        match spec_entry_raw(old(reader).data(), *entry) {
            Ok(raw) => r is Ok && blocks_bytes(r->Ok_0@) == raw,
            Err(f) => read_matches(r, f),
        },
{
    reader.seek(entry.data_offset as usize);
    let ghost start = reader.rest();
    let mut state = BlockIterState::new(entry);
    let mut blocks: Vec<Block> = Vec::new();
    loop
        invariant
            state.inv(),
            reader.data() == old(reader).data(),
            start == entry_bytes(old(reader).data(), *entry),
            reader.pos() <= reader.data().len() ==> start.len() >= reader.rest().len(),
            spec_blocks_span(start, entry.uncompressed_size as nat, spec_max_blocks(entry.uncompressed_size))
                == match spec_blocks_span(reader.rest(), state.remaining(), state.budget()) {
                    Ok(n) => Ok((blocks_bytes(blocks@).len() + n) as nat),
                    Err(f) => Err::<nat, Failure>(f),
                },
            blocks_bytes(blocks@) == start.take(blocks_bytes(blocks@).len() as int),
            reader.rest() == start.skip(blocks_bytes(blocks@).len() as int),
            blocks_bytes(blocks@).len() <= start.len(),
        decreases state.budget(),
    {
        let ghost s = reader.rest();
        let ghost done = blocks_bytes(blocks@);
        match state.next_header(reader) {
            None => {
                proof {
                    assert(start.take(done.len() as int) == done);
                }
                return Ok(blocks);
            },
            Some(Err(e)) => return Err(e),
            Some(Ok(h)) => {
                proof {
                    lemma_block_header_bytes(s);
                }
                let block = match Block::read(h, reader) {
                    Ok(b) => b,
                    Err(e) => return Err(e),
                };
                proof {
                    lemma_blocks_bytes_push(blocks@, block);
                    let c = h.compressed_size as int;
                    assert(block.compressed_data@.len() == c);
                    assert(block.spec_to_bytes() =~= s.take(8 + c));
                    assert(start.take(done.len() + 8 + c) =~= done + s.take(8 + c));
                    assert(reader.rest() =~= start.skip(done.len() + 8 + c));
                    assert(reader.rest() =~= s.skip(8 + c));
                    assert(blocks_bytes(blocks@.push(block)).len() == done.len() + 8 + c);
                }
                blocks.push(block);
            },
        }
    }
}


/// Where a reader of one file stands: the decompressed bytes of the current
/// block not yet read, the stored bytes from the next block on, how many
/// uncompressed bytes the remaining blocks still hold, and how many more
/// blocks are allowed.
pub type ReaderState = (Seq<u8>, Seq<u8>, nat, nat);

/// Reading the next block of a file from `s`, when `remaining > 0`: its
/// decompressed data, the stored bytes after it, and what remains.
pub open spec fn spec_next_block(s: Seq<u8>, remaining: nat, budget: nat) -> Result<ReaderState, Failure> {
    match header_failure(s, remaining, budget) {
        Some(f) => Err(f),
        None => {
            let h = BlockHeader::decode(s);
            if s.len() < 8 + h.compressed_size {
                Err(Failure::Eof)
            } else {
                match zlib_decompressed(s.subrange(8, 8 + h.compressed_size)) {
                    Err(k) => Err(Failure::Undecodable(k)),
                    Ok(d) => Ok((
                        d,
                        s.skip(8 + h.compressed_size),
                        (remaining - h.uncompressed_size) as nat,
                        (budget - 1) as nat,
                    )),
                }
            }
        },
    }
}

/// The state of a new reader over the file that `e` indexes in `data`: the
/// first block is read and decompressed at once.
pub open spec fn spec_first_state(data: Seq<u8>, e: IndexEntry) -> Result<ReaderState, Failure> {
    let s = entry_bytes(data, e);
    if e.uncompressed_size == 0 {
        Ok((Seq::empty(), s, 0, spec_max_blocks(e.uncompressed_size)))
    } else {
        spec_next_block(s, e.uncompressed_size as nat, spec_max_blocks(e.uncompressed_size))
    }
}

/// One read of at most `n` bytes: bytes of the current block when `n > 0`
/// and some are left; else, unless the file is done, the next block is read
/// in place of the current one and the read starts again on it.
pub open spec fn spec_read_step(st: ReaderState, n: nat) -> Result<(Seq<u8>, ReaderState), Failure>
    decreases st.3,
{
    if n > 0 && st.0.len() > 0 {
        let k = if n <= st.0.len() { n } else { st.0.len() };
        Ok((st.0.take(k as int), (st.0.skip(k as int), st.1, st.2, st.3)))
    } else if st.2 == 0 {
        Ok((Seq::empty(), st))
    } else {
        match spec_next_block(st.1, st.2, st.3) {
            Err(f) => Err(f),
            Ok(next) => spec_read_step(next, n),
        }
    }
}

/// All that is left to read: the rest of the current block, then the
/// remaining blocks decompressed, or the failure met on the way.
pub open spec fn spec_reader_contents(st: ReaderState) -> Result<Seq<u8>, Failure> {
    match spec_file_data(st.1, st.2, st.3) {
        Ok(d) => Ok(st.0 + d),
        Err(f) => Err(f),
    }
}

/// A read of at least one byte takes the front of what is left, or meets
/// the failure that reading everything would meet; it reads nothing only at
/// the end.
pub proof fn lemma_read_step_contents(st: ReaderState, n: nat)
    requires
        n > 0,
    ensures
        match spec_read_step(st, n) {
            Ok((b, st2)) => {
                &&& spec_reader_contents(st) == match spec_reader_contents(st2) {
                    Ok(c) => Ok::<Seq<u8>, Failure>(b + c),
                    Err(f) => Err(f),
                }
                &&& b.len() <= n
                &&& b.len() == 0 ==> spec_reader_contents(st) == Ok::<Seq<u8>, Failure>(Seq::empty())
                &&& b.len() > 0 ==> (st2.3 < st.3 || (st2.3 == st.3 && st2.0.len() < st.0.len()))
                &&& st2.3 <= st.3
            },
            Err(f) => spec_reader_contents(st) == Err::<Seq<u8>, Failure>(f),
        },
    decreases st.3,
{
    if n > 0 && st.0.len() > 0 {
        let k = if n <= st.0.len() { n } else { st.0.len() };
        let st2 = (st.0.skip(k as int), st.1, st.2, st.3);
        if let Ok(d) = spec_file_data(st.1, st.2, st.3) {
            assert(st.0.take(k as int) + (st.0.skip(k as int) + d) =~= st.0 + d);
        }
    } else if st.2 == 0 {
        assert(st.0 + Seq::<u8>::empty() =~= st.0);
        assert(Seq::<u8>::empty() + st.0 =~= st.0);
    } else {
        assert(st.0 =~= Seq::<u8>::empty());
        match spec_next_block(st.1, st.2, st.3) {
            Err(f) => {},
            Ok(next) => {
                assert(next.3 < st.3);
                lemma_read_step_contents(next, n);
                if let Ok(d) = spec_file_data(st.1, st.2, st.3) {
                    assert(st.0 + d =~= d);
                }
            },
        }
    }
}

/// What a new reader over a file reads to its end is the file's contents,
/// and where it cannot be made, reading the contents fails the same way.
pub proof fn lemma_first_state_contents(data: Seq<u8>, e: IndexEntry)
    ensures
        match spec_first_state(data, e) {
            Ok(st) => spec_reader_contents(st) == spec_entry_data(data, e),
            Err(f) => spec_entry_data(data, e) == Err::<Seq<u8>, Failure>(f),
        },
{
    if e.uncompressed_size == 0 {
        assert(Seq::<u8>::empty() + Seq::<u8>::empty() =~= Seq::<u8>::empty());
    }
}

/// Reads the next block of a file and decompresses it; `None` once all its
/// uncompressed bytes are accounted for.
pub fn load_next_block(blocks: &mut ByteCursor, state: &mut BlockIterState) -> (r: Result<Option<Vec<u8>>, Error>)
    requires
        old(state).inv(),
    ensures
        final(state).inv(),
        old(state).remaining() == 0 ==> r == Ok::<Option<Vec<u8>>, Error>(None) && *final(blocks) == *old(blocks)
            && *final(state) == *old(state),
        old(state).remaining() > 0 ==> match spec_next_block(old(blocks).rest(), old(state).remaining(), old(state).budget()) {
            Ok(next) => r matches Ok(Some(v)) && v@ == next.0 && final(blocks).rest() == next.1
                && final(state).remaining() == next.2 && final(state).budget() == next.3,
            Err(f) => read_matches(r, f),
        },
{
    let ghost s = blocks.rest();
    match state.next_header(blocks) {
        None => Ok(None),
        Some(Err(e)) => Err(e),
        Some(Ok(h)) => {
            let block = match Block::read(h, blocks) {
                Ok(b) => b,
                Err(e) => return Err(e),
            };
            proof {
                assert(block.compressed_data@ =~= s.subrange(8, 8 + h.compressed_size));
                assert(blocks.rest() =~= s.skip(8 + h.compressed_size));
            }
            match zlib_decompress(block.compressed_data.as_slice()) {
                Ok(d) => Ok(Some(d)),
                Err(k) => Err(Error::IO(k)),
            }
        },
    }
}

/// Whether `r` is the error for the failure `f`, met reading a file after
/// its first block: it reaches the caller as an I/O error, a broken format
/// as one of kind `Other`.
pub open spec fn later_matches<T>(r: Result<T, Error>, f: Failure) -> bool {
    match f {
        Failure::Eof => r == Err::<T, Error>(Error::IO(IoError::UnexpectedEof)),
        Failure::Corrupt => r == Err::<T, Error>(Error::IO(IoError::Other)),
        Failure::Undecodable(k) => r == Err::<T, Error>(Error::IO(k)),
    }
}

/// Whether `r` is the error of reading the whole file that `e` indexes in
/// `data` through a file reader: a failure on the first block as it is, one
/// on a later block as `later_matches` has it.
pub open spec fn entry_read_fails<T>(r: Result<T, Error>, data: Seq<u8>, e: IndexEntry) -> bool {
    match spec_first_state(data, e) {
        Err(f) => read_matches(r, f),
        Ok(st) => match spec_reader_contents(st) {
            Err(f) => later_matches(r, f),
            Ok(_) => false,
        },
    }
}

/// The error that a failure met after a file's first block becomes: an I/O
/// error stays as it is, any other becomes an I/O error of kind `Other`.
pub fn later_error(e: Error) -> (r: Error)
    ensures
        e matches Error::IO(k) ==> r == Error::IO(k),
        !(e is IO) ==> r == Error::IO(IoError::Other),
{
    match e {
        Error::IO(k) => Error::IO(k),
        _ => Error::IO(IoError::Other),
    }
}

} // verus!
