//! The whole-archive view: a PFS file split into its header, blocks, index
//! and footer, as plain records.
use vstd::prelude::*;
use crate::bytes::{le_u32, u32_at, read_u32, push_u32};
use crate::pfs::block::Block;
use crate::pfs::header::Header;
use crate::pfs::index_entry::IndexEntry;
use crate::wld::parse::{rest, append_bytes};
use crate::archive::write::index_entries_bytes;
use crate::archive::block_map::{ordered_blocks, ordered_blocks_bytes, blocks_by_offset, offsets_of, ascending};
use std::collections::BTreeMap;

verus! {

/// The trailer of an archive as this view reads it: five marker bytes and a
/// little-endian timestamp.
#[derive(Debug, Default, PartialEq)]
pub struct Footer {
    pub footer_string: Vec<u8>,
    pub timestamp: u32,
}

impl Footer {
    /// `b"STEVE"`
    pub const FOOTER_STRING: [u8; 5] = [0x53, 0x54, 0x45, 0x56, 0x45];

    pub open spec fn spec_to_bytes(&self) -> Seq<u8> {
        self.footer_string@ + le_u32(self.timestamp)
    }

    /// Reads the footer at the start of `input`; `None` when fewer than 9
    /// bytes are there.
    pub fn parse(input: &[u8]) -> (r: Option<(&[u8], Self)>)
        ensures
            input@.len() >= 9 ==> (r matches Some((rest, f)) && f.footer_string@ == input@.take(5)
                && f.timestamp == u32_at(input@, 5) && rest@ == input@.skip(9)),
            input@.len() < 9 ==> r is None,
    {
        if input.len() < 9 {
            return None;
        }
        let (marker, _) = input.split_at(5);
        let mut footer_string: Vec<u8> = Vec::new();
        append_bytes(&mut footer_string, marker);
        let timestamp = read_u32(input, 5);
        Some((rest(input, 9), Footer { footer_string, timestamp }))
    }

    pub fn to_bytes(&self) -> (r: Vec<u8>)
        ensures
            r@ == self.spec_to_bytes(),
    {
        let mut out: Vec<u8> = Vec::new();
        append_bytes(&mut out, self.footer_string.as_slice());
        push_u32(&mut out, self.timestamp);
        out
    }
}

/// A stored block: (offset in the archive, uncompressed size, compressed data).
pub type BlockSpan = (nat, u32, Seq<u8>);

/// The blocks stored one after another in `d`, whose first byte lies at
/// `offset` in the archive: read while a whole block is there.
pub open spec fn spec_blocks(d: Seq<u8>, offset: nat) -> Seq<BlockSpan>
    decreases d.len(),
{
    if d.len() >= 8 && d.len() >= 8 + u32_at(d, 0) {
        let c = u32_at(d, 0);
        seq![(offset, u32_at(d, 4), d.subrange(8, 8 + c))] + spec_blocks(
            d.skip(8 + c),
            (offset + 8 + c) as nat,
        )
    } else {
        Seq::empty()
    }
}

/// How many bytes at the start of `d` the blocks of `spec_blocks` take.
pub open spec fn spec_blocks_end(d: Seq<u8>) -> nat
    decreases d.len(),
{
    if d.len() >= 8 && d.len() >= 8 + u32_at(d, 0) {
        let c = u32_at(d, 0);
        (8 + c + spec_blocks_end(d.skip(8 + c))) as nat
    } else {
        0
    }
}

/// The blocks stored in `d` lie at ascending offsets, from `offset` on.
proof fn lemma_spans_ascending(d: Seq<u8>, offset: nat)
    ensures
        forall|i: int| 0 <= i < spec_blocks(d, offset).len() ==> #[trigger] spec_blocks(d, offset)[i].0 >= offset,
        forall|i: int, j: int| 0 <= i < j < spec_blocks(d, offset).len() ==> #[trigger] spec_blocks(d, offset)[i].0
            < #[trigger] spec_blocks(d, offset)[j].0,
    decreases d.len(),
{
    if d.len() >= 8 && d.len() >= 8 + u32_at(d, 0) {
        let c = u32_at(d, 0);
        let off2 = (offset + 8 + c) as nat;
        let tail = spec_blocks(d.skip(8 + c), off2);
        lemma_spans_ascending(d.skip(8 + c), off2);
        let sp = spec_blocks(d, offset);
        assert(sp == seq![(offset, u32_at(d, 4), d.subrange(8, 8 + c))] + tail);
        assert forall|i: int| 0 < i < sp.len() implies sp[i] == tail[i - 1] by {}
    }
}

/// Whether the stored block `b` at `offset` is the span `sp`.
pub open spec fn block_is(offset: usize, b: Block, sp: BlockSpan) -> bool {
    &&& offset == sp.0
    &&& b.uncompressed_size == sp.1
    &&& b.compressed_data@ == sp.2
}

/// The serialized blocks, in order.
pub open spec fn archive_blocks_bytes(bs: Seq<(usize, Block)>) -> Seq<u8>
    decreases bs.len(),
{
    if bs.len() == 0 {
        Seq::empty()
    } else {
        archive_blocks_bytes(bs.drop_last()) + bs.last().1.spec_to_bytes()
    }
}

/// Reads the blocks stored one after another in `data`, the bytes from
/// offset 12 of the archive on, while a whole block is there.
fn parse_blocks(data: &[u8]) -> (r: Vec<(usize, Block)>)
    requires
        data@.len() + 12 <= usize::MAX,
    ensures
        r@.len() == spec_blocks(data@, 12).len(),
        forall|i: int| 0 <= i < r@.len() ==> #[trigger] block_is(r@[i].0, r@[i].1, spec_blocks(data@, 12)[i]),
{
    let ghost all = spec_blocks(data@, 12);
    let mut blocks: Vec<(usize, Block)> = Vec::new();
    let mut at: usize = 0;
    let len = data.len();
    proof {
        assert(data@.skip(0) =~= data@);
        assert(blocks@.map_values(|p: (usize, Block)| (p.0 as nat, p.1.uncompressed_size, p.1.compressed_data@)) =~= Seq::<BlockSpan>::empty());
        assert(Seq::<BlockSpan>::empty() + spec_blocks(data@, 12) =~= spec_blocks(data@, 12));
    }
    loop
        invariant
            len == data@.len(),
            len + 12 <= usize::MAX,
            at <= len,
            all == spec_blocks(data@, 12),
            all == blocks@.map_values(|p: (usize, Block)| (p.0 as nat, p.1.uncompressed_size, p.1.compressed_data@))
                + spec_blocks(data@.skip(at as int), (12 + at) as nat),
        ensures
            at <= len,
            all == blocks@.map_values(|p: (usize, Block)| (p.0 as nat, p.1.uncompressed_size, p.1.compressed_data@))
                + spec_blocks(data@.skip(at as int), (12 + at) as nat),
            spec_blocks(data@.skip(at as int), (12 + at) as nat).len() == 0,
        decreases len - at,
    {
        let ghost d = data@.skip(at as int);
        if len - at < 8 {
            proof {
                assert(spec_blocks(d, (12 + at) as nat) =~= Seq::<BlockSpan>::empty());
            }
            break;
        }
        let c = read_u32(data, at);
        let u = read_u32(data, at + 4);
        proof {
            assert(u32_at(d, 0) == c);
            assert(u32_at(d, 4) == u);
        }
        if (len - at - 8) < c as usize {
            proof {
                assert(spec_blocks(d, (12 + at) as nat) =~= Seq::<BlockSpan>::empty());
            }
            break;
        }
        let (_, tail) = data.split_at(at + 8);
        let (body, _) = tail.split_at(c as usize);
        let mut compressed_data: Vec<u8> = Vec::new();
        append_bytes(&mut compressed_data, body);
        proof {
            assert(compressed_data@ =~= d.subrange(8, 8 + c));
            assert(d.skip(8 + c) =~= data@.skip(at + 8 + c));
        }
        let ghost prev = blocks@;
        blocks.push((12 + at, Block { uncompressed_size: u, compressed_data }));
        proof {
            let f = |p: (usize, Block)| (p.0 as nat, p.1.uncompressed_size, p.1.compressed_data@);
            assert(blocks@.map_values(f) =~= prev.map_values(f).push(((12 + at) as nat, u, d.subrange(8, 8 + c))));
            assert(spec_blocks(d, (12 + at) as nat) == seq![((12 + at) as nat, u, d.subrange(8, 8 + c))]
                + spec_blocks(d.skip(8 + c), (12 + at + 8 + c) as nat));
            assert(prev.map_values(f) + spec_blocks(d, (12 + at) as nat) =~= blocks@.map_values(f)
                + spec_blocks(d.skip(8 + c), (12 + at + 8 + c) as nat));
        }
        at = at + 8 + c as usize;
    }
    proof {
        let f = |p: (usize, Block)| (p.0 as nat, p.1.uncompressed_size, p.1.compressed_data@);
        let d = data@.skip(at as int);
        assert(spec_blocks(d, (12 + at) as nat) =~= Seq::<BlockSpan>::empty());
        assert(blocks@.map_values(f) + Seq::<BlockSpan>::empty() =~= blocks@.map_values(f));
        assert(all =~= blocks@.map_values(f));
        assert forall|i: int| 0 <= i < blocks@.len() implies #[trigger] block_is(blocks@[i].0, blocks@[i].1, all[i]) by {
            assert(all[i] == f(blocks@[i]));
        }
    }
    blocks
}

/// A PFS archive split into its parts.
#[derive(Debug)]
pub struct Archive {
    pub header: Header,
    /// The blocks, keyed by their offsets in the archive.
    pub blocks: BTreeMap<usize, Block>,
    pub index_entries: Vec<IndexEntry>,
    /// The footer is missing from some archives (`global_chr1.s3d`).
    pub footer: Option<Footer>,
}

/// What the archive stored at the start of `s` consists of, if it can be
/// read: the header, the index offset, the entry count and where the index
/// ends.
pub open spec fn archive_layout(s: Seq<u8>) -> Option<(Header, nat, nat)> {
    if s.len() < 12 {
        None
    } else {
        let h = Header::decode(s);
        let io = h.index_offset as nat;
        if io < 12 || s.len() < io + 4 {
            None
        } else {
            let count = u32_at(s, io as int) as nat;
            if s.len() < io + 4 + 12 * count {
                None
            } else {
                let end = io + 4 + 12 * count;
                let rem = s.len() - end;
                if 0 < rem < 9 {
                    None
                } else {
                    Some((h, count, end))
                }
            }
        }
    }
}

impl Archive {
    /// Whether `a` is the archive stored at the start of `s`, with `rest`
    /// following it: the header of `s`; the blocks stored between the header
    /// and the index, as long as whole blocks are there; the index; and the
    /// footer when any bytes follow the index.
    pub open spec fn read_from(s: Seq<u8>, a: Archive, rest: Seq<u8>) -> bool {
        match archive_layout(s) {
            None => false,
            Some((h, count, end)) => {
                let spans = spec_blocks(s.subrange(12, h.index_offset as int), 12);
                &&& a.header == h
                &&& ordered_blocks(a.blocks@).len() == spans.len()
                &&& (forall|i: int| 0 <= i < spans.len() ==> #[trigger] block_is(
                    ordered_blocks(a.blocks@)[i].0,
                    ordered_blocks(a.blocks@)[i].1,
                    spans[i],
                ))
                &&& a.index_entries@ == Seq::new(count, |i: int| IndexEntry::decode(s.skip(h.index_offset + 4 + 12 * i)))
                &&& (if end < s.len() {
                    a.footer matches Some(f) && f.footer_string@ == s.subrange(end as int, (end + 5) as int)
                        && f.timestamp == u32_at(s, (end + 5) as int) && rest == s.skip((end + 9) as int)
                } else {
                    a.footer is None && rest.len() == 0
                })
            },
        }
    }

    /// The serialized archive: header, blocks, entry count, entries, footer.
    pub open spec fn spec_to_bytes(&self) -> Seq<u8> {
        self.header.spec_to_bytes() + archive_blocks_bytes(ordered_blocks(self.blocks@)) + le_u32(
            self.index_entries@.len() as u32,
        ) + index_entries_bytes(self.index_entries@) + match self.footer {
            Some(f) => f.spec_to_bytes(),
            None => Seq::empty(),
        }
    }

    /// Splits `input` into an archive: the header; the blocks read from the
    /// bytes up to the index offset, as long as whole blocks are there; the
    /// index; and the footer, when any bytes follow the index. Returns `None`
    /// when the header, the index or a started footer is cut short, or the
    /// index offset points into the header.
    pub fn parse(input: &[u8]) -> (r: Option<(&[u8], Self)>)
        ensures
            match archive_layout(input@) {
                None => r is None,
                Some(_) => r matches Some((rest, a)) && Archive::read_from(input@, a, rest@),
            },
    {
        if input.len() < 12 {
            return None;
        }
        let header = Header {
            index_offset: read_u32(input, 0),
            magic_number: read_u32(input, 4),
            version: read_u32(input, 8),
        };
        let io = header.index_offset as usize;
        if io < 12 || input.len() < 4 || io > input.len() - 4 {
            return None;
        }
        let count = read_u32(input, io);
        if (input.len() - io - 4) / 12 < count as usize {
            return None;
        }
        let end = io + 4 + 12 * count as usize;
        let ghost s = input@;
        // The index.
        let mut index_entries: Vec<IndexEntry> = Vec::new();
        let mut k: usize = 0;
        while k < count as usize
            invariant
                k <= count,
                s == input@,
                io == header.index_offset,
                end == io + 4 + 12 * count,
                end <= input@.len(),
                index_entries@ == Seq::new(k as nat, |i: int| IndexEntry::decode(s.skip(io + 4 + 12 * i))),
            decreases count - k,
        {
            let at = io + 4 + 12 * k;
            let (_, tail) = input.split_at(at);
            let e = match IndexEntry::parse(tail) {
                Some((_, e)) => e,
                None => return None,
            };
            proof {
                assert(tail@ =~= s.skip(at as int));
            }
            index_entries.push(e);
            k = k + 1;
            proof {
                assert(index_entries@ =~= Seq::new(k as nat, |i: int| IndexEntry::decode(s.skip(io + 4 + 12 * i))));
            }
        }
        // The footer.
        let (after_index, footer) = if end < input.len() {
            let (_, tail) = input.split_at(end);
            proof {
                assert(tail@ =~= s.skip(end as int));
            }
            match Footer::parse(tail) {
                Some((r, f)) => {
                    proof {
                        assert(f.footer_string@ =~= s.subrange(end as int, (end + 5) as int));
                        assert(r@ =~= s.skip(end + 9));
                    }
                    (r, Some(f))
                },
                None => return None,
            }
        } else {
            (rest(input, input.len()), None)
        };
        // The blocks.
        let (front, _) = input.split_at(io);
        let (_, data) = front.split_at(12);
        proof {
            assert(data@ =~= s.subrange(12, io as int));
        }
        let list = parse_blocks(data);
        proof {
            let spans = spec_blocks(data@, 12);
            lemma_spans_ascending(data@, 12);
            assert forall|i: int, j: int| 0 <= i < j < offsets_of(list@).len() implies offsets_of(list@)[i] < offsets_of(list@)[j] by {
                assert(block_is(list@[i].0, list@[i].1, spans[i]));
                assert(block_is(list@[j].0, list@[j].1, spans[j]));
            }
        }
        let blocks = blocks_by_offset(list);
        Some((after_index, Archive { header, blocks, index_entries, footer }))
    }

    pub fn to_bytes(&self) -> (r: Vec<u8>)
        ensures
            r@ == self.spec_to_bytes(),
    {
        let mut out = self.header.to_bytes();
        let blocks = ordered_blocks_bytes(&self.blocks);
        append_bytes(&mut out, blocks.as_slice());
        push_u32(&mut out, #[verifier::truncate] (self.index_entries.len() as u32));
        let mut j: usize = 0;
        let ghost mid = out@;
        while j < self.index_entries.len()
            invariant
                j <= self.index_entries@.len(),
                out@ == mid + index_entries_bytes(self.index_entries@.take(j as int)),
            decreases self.index_entries@.len() - j,
        {
            let b = self.index_entries[j].to_bytes();
            append_bytes(&mut out, b.as_slice());
            j = j + 1;
            proof {
                assert(self.index_entries@.take(j as int).drop_last() =~= self.index_entries@.take(j - 1));
                assert(out@ =~= mid + index_entries_bytes(self.index_entries@.take(j as int)));
            }
        }
        proof {
            assert(self.index_entries@.take(j as int) =~= self.index_entries@);
        }
        match &self.footer {
            Some(f) => {
                let b = f.to_bytes();
                append_bytes(&mut out, b.as_slice());
            },
            None => {
                proof {
                    assert(out@ + Seq::<u8>::empty() =~= out@);
                }
            },
        }
        out
    }
}

} // verus!
