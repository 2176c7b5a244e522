//! What serializing a parsed archive gives back.
use vstd::prelude::*;
use crate::bytes::{le_u32, u32_at, lemma_u32_bytes};
use crate::pfs::block::Block;
use crate::pfs::header::lemma_header_bytes;
use crate::pfs::index_entry::{IndexEntry, lemma_index_entry_bytes};
use crate::archive::write::index_entries_bytes;
use crate::archive::block_map::ordered_blocks;
use crate::archive::parser::{Archive, archive_layout, spec_blocks, spec_blocks_end, block_is, archive_blocks_bytes};

verus! {

/// The serialized blocks are the first block's bytes followed by the rest's.
pub proof fn lemma_blocks_bytes_first(bs: Seq<(usize, Block)>)
    requires
        bs.len() > 0,
    ensures
        archive_blocks_bytes(bs) == bs[0].1.spec_to_bytes() + archive_blocks_bytes(bs.skip(1)),
    decreases bs.len(),
{
    if bs.len() == 1 {
        assert(bs.drop_last() =~= Seq::<(usize, Block)>::empty());
        assert(bs.skip(1) =~= Seq::<(usize, Block)>::empty());
        assert(archive_blocks_bytes(bs) =~= bs[0].1.spec_to_bytes() + archive_blocks_bytes(bs.skip(1)));
    } else {
        let dl = bs.drop_last();
        lemma_blocks_bytes_first(dl);
        assert(bs.skip(1).drop_last() =~= dl.skip(1));
        assert(bs.skip(1).last() == bs.last());
        assert(dl[0] == bs[0]);
        assert(archive_blocks_bytes(bs) =~= bs[0].1.spec_to_bytes() + archive_blocks_bytes(bs.skip(1)));
    }
}

/// Blocks that are, one by one, the blocks stored in `d` serialize back to
/// `d` when those blocks take all of `d`.
pub proof fn lemma_stored_blocks_bytes(d: Seq<u8>, offset: nat, bs: Seq<(usize, Block)>)
    requires
        bs.len() == spec_blocks(d, offset).len(),
        forall|i: int| 0 <= i < bs.len() ==> #[trigger] block_is(bs[i].0, bs[i].1, spec_blocks(d, offset)[i]),
        spec_blocks_end(d) == d.len(),
    ensures
        archive_blocks_bytes(bs) == d,
    decreases d.len(),
{
    if d.len() >= 8 && d.len() >= 8 + u32_at(d, 0) {
        let c = u32_at(d, 0);
        let tail = d.skip(8 + c);
        let off2 = (offset + 8 + c) as nat;
        let sp = spec_blocks(d, offset);
        assert(sp == seq![(offset, u32_at(d, 4), d.subrange(8, 8 + c))] + spec_blocks(tail, off2));
        let rest = bs.skip(1);
        assert(block_is(bs[0].0, bs[0].1, sp[0]));
        assert forall|i: int| 0 <= i < rest.len() implies #[trigger] block_is(rest[i].0, rest[i].1, spec_blocks(tail, off2)[i]) by {
            assert(block_is(bs[i + 1].0, bs[i + 1].1, sp[i + 1]));
            assert(sp[i + 1] == spec_blocks(tail, off2)[i]);
        }
        lemma_stored_blocks_bytes(tail, off2, rest);
        lemma_blocks_bytes_first(bs);
        let b = bs[0].1;
        lemma_u32_bytes(d, 0);
        lemma_u32_bytes(d, 4);
        assert(b.compressed_data@ == d.subrange(8, 8 + c));
        assert(b.compressed_data@.len() as u32 == c);
        assert(b.spec_to_bytes() =~= d.subrange(0, 4) + d.subrange(4, 8) + d.subrange(8, 8 + c));
        assert(archive_blocks_bytes(bs) =~= d);
    } else {
        assert(d.len() == 0);
        assert(bs =~= Seq::<(usize, Block)>::empty());
        assert(archive_blocks_bytes(bs) =~= d);
    }
}

/// The entries read one after another from `base` serialize back to the
/// bytes they were read from.
pub proof fn lemma_read_entries_bytes(s: Seq<u8>, base: int, k: nat)
    requires
        0 <= base,
        base + 12 * k <= s.len(),
    ensures
        index_entries_bytes(Seq::new(k, |i: int| IndexEntry::decode(s.skip(base + 12 * i))))
            == s.subrange(base, base + 12 * k),
    decreases k,
{
    let es = Seq::new(k, |i: int| IndexEntry::decode(s.skip(base + 12 * i)));
    if k == 0 {
        assert(index_entries_bytes(es) =~= s.subrange(base, base));
    } else {
        let k1 = (k - 1) as nat;
        lemma_read_entries_bytes(s, base, k1);
        assert(es.drop_last() =~= Seq::new(k1, |i: int| IndexEntry::decode(s.skip(base + 12 * i))));
        let p = base + 12 * k1;
        lemma_index_entry_bytes(s.skip(p));
        assert(s.skip(p).take(12) =~= s.subrange(p, p + 12));
        assert(index_entries_bytes(es) =~= s.subrange(base, p) + s.subrange(p, p + 12));
        assert(s.subrange(base, p) + s.subrange(p, p + 12) =~= s.subrange(base, base + 12 * k));
    }
}

/// Five consecutive pieces of `s` make up `s`.
proof fn lemma_five_pieces(s: Seq<u8>, a: int, b: int, c: int, d: int)
    requires
        0 <= a <= b <= c <= d <= s.len(),
    ensures
        s.take(a) + s.subrange(a, b) + s.subrange(b, c) + s.subrange(c, d) + s.subrange(d, s.len() as int) == s,
{
    assert(s.take(a) + s.subrange(a, b) + s.subrange(b, c) + s.subrange(c, d) + s.subrange(d, s.len() as int) =~= s);
}

/// An archive read from the whole of `s` serializes back to `s`, when the
/// blocks it read take all the bytes between the header and the index.
#[verifier::spinoff_prover]
#[verifier::rlimit(50)]
pub proof fn lemma_archive_round_trip(s: Seq<u8>, a: Archive, rest: Seq<u8>)
    requires
        Archive::read_from(s, a, rest),
        rest.len() == 0,
        spec_blocks_end(s.subrange(12, a.header.index_offset as int)) == a.header.index_offset - 12,
    ensures
        a.spec_to_bytes() == s,
{
    let (h, count, end) = archive_layout(s).unwrap();
    let io = h.index_offset as int;
    let d = s.subrange(12, io);
    let e = end as int;
    assert(a.header == h);
    assert(12 <= io && io + 4 <= e <= s.len());
    let hb = a.header.spec_to_bytes();
    assert(hb == s.take(12)) by {
        lemma_header_bytes(s);
    }
    let bb = archive_blocks_bytes(ordered_blocks(a.blocks@));
    assert(bb == d) by {
        lemma_stored_blocks_bytes(d, 12, ordered_blocks(a.blocks@));
    }
    let cb = le_u32(a.index_entries@.len() as u32);
    assert(cb == s.subrange(io, io + 4)) by {
        assert(a.index_entries@.len() == count);
        lemma_u32_bytes(s, io);
    }
    let ib = index_entries_bytes(a.index_entries@);
    assert(ib == s.subrange(io + 4, e)) by {
        lemma_read_entries_bytes(s, io + 4, count);
    }
    let fb = match a.footer {
        Some(f) => f.spec_to_bytes(),
        None => Seq::<u8>::empty(),
    };
    assert(fb == s.subrange(e, s.len() as int)) by {
        if e < s.len() {
            let f = a.footer.unwrap();
            lemma_u32_bytes(s, e + 5);
            assert(s.len() == e + 9);
            assert(f.spec_to_bytes() =~= s.subrange(e, s.len() as int));
        } else {
            assert(fb =~= s.subrange(e, s.len() as int));
        }
    }
    assert(a.spec_to_bytes() == hb + bb + cb + ib + fb);
    lemma_five_pieces(s, 12, io, io + 4, e);
}

} // verus!
