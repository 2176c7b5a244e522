//! What the writer's output gives back when it is read.
use vstd::prelude::*;
use crate::bytes::{le_u32, u32_at, lemma_u32_roundtrip};
use crate::pfs::blocks::{spec_file_data, spec_max_blocks};
use crate::pfs::block_header::BlockHeader;
use crate::archive::write::{spec_file_blocks, spec_chunk_block, chunks_round_trip, chunks_fit, chunk_len};
use crate::zlib::{zlib_compressed, zlib_decompressed};
use crate::archive::write::{WriterModel, without_name, has_name, spec_new_header, names_distinct};
use crate::cursor::{written, lemma_written_at_end};
use crate::pfs::crc::spec_filename_crc;
use crate::pfs::header::Header;
use crate::pfs::index_entry::{IndexEntry, lemma_index_entry_roundtrip};
use crate::pfs::read::{spec_open, spec_index_map, spec_directory_entry, spec_index_entries};
use crate::pfs::blocks::{spec_entry_data, spec_entry_headers, spec_headers, after};
use crate::archive::write::{index_entries_bytes, spec_index_bytes, spec_sorted_entries, keyed_entries,
    spec_finish, spec_with_directory, spec_final_directory, spec_directory_contents, spec_footer_bytes};
use crate::sort::{sort_seq_by_key, lemma_sort_contains};

verus! {

/// The blocks written for `d` read back as `d`, whatever follows them,
/// provided each chunk decompresses to itself and fits a block; `budget` is
/// any allowance of blocks at least one per 8 KiB.
#[verifier::rlimit(50)]
pub proof fn lemma_file_blocks_read_back(d: Seq<u8>, tail: Seq<u8>, budget: nat)
    requires
        chunks_round_trip(d),
        chunks_fit(d),
        budget >= (d.len() + 8191) / 8192,
    ensures
        spec_file_data(spec_file_blocks(d) + tail, d.len(), budget) == Ok::<Seq<u8>, crate::pfs::error::Failure>(d),
    decreases d.len(),
{
    if d.len() == 0 {
        assert(spec_file_blocks(d) + tail =~= tail);
        assert(d =~= Seq::<u8>::empty());
    } else {
        let k = chunk_len(d.len());
        let c = d.take(k as int);
        let z = zlib_compressed(c);
        let rest = d.skip(k as int);
        let s = spec_file_blocks(d) + tail;
        lemma_file_blocks_read_back(rest, tail, (budget - 1) as nat);
        lemma_u32_roundtrip(z.len() as u32);
        lemma_u32_roundtrip(k as u32);
        assert(spec_chunk_block(c) == le_u32(z.len() as u32) + le_u32(c.len() as u32) + z);
        assert(s =~= le_u32(z.len() as u32) + le_u32(k as u32) + z + (spec_file_blocks(rest) + tail));
        assert(u32_at(s, 0) == u32_at(le_u32(z.len() as u32), 0));
        assert(u32_at(s, 4) == u32_at(le_u32(k as u32), 0));
        let h = BlockHeader::decode(s);
        assert(h.compressed_size == z.len());
        assert(h.uncompressed_size == k);
        assert(s.subrange(8, 8 + z.len() as int) =~= z);
        assert(s.skip(8 + z.len() as int) =~= spec_file_blocks(rest) + tail);
        assert(rest.len() == d.len() - k);
        assert(h.within_limits());
        assert(budget > 0);
        assert(crate::pfs::blocks::header_failure(s, d.len(), budget) is None);
        assert(zlib_decompressed(s.subrange(8, 8 + z.len() as int)) == Ok::<Seq<u8>, crate::cursor::IoError>(c));
        assert(c + rest =~= d);
        assert(spec_file_data(s.skip(8 + h.compressed_size), (d.len() - h.uncompressed_size) as nat, (budget - 1) as nat)
            == Ok::<Seq<u8>, crate::pfs::error::Failure>(rest));
        assert(s.len() >= 8 + h.compressed_size);
        assert(spec_file_data(s, d.len(), budget) == Ok::<Seq<u8>, crate::pfs::error::Failure>(c + rest));
    }
}

/// The blocks written for `d` are read back as one block per 8 KiB chunk,
/// the last one holding the rest: their headers number `ceil(len / 8192)`,
/// whatever follows them.
#[verifier::rlimit(50)]
pub proof fn lemma_file_blocks_headers(d: Seq<u8>, tail: Seq<u8>, budget: nat)
    requires
        chunks_fit(d),
        budget >= (d.len() + 8191) / 8192,
    ensures
        spec_headers(spec_file_blocks(d) + tail, d.len(), budget) matches Ok(hs)
            && hs.len() == (d.len() + 8191) / 8192,
    decreases d.len(),
{
    if d.len() == 0 {
        assert(spec_file_blocks(d) + tail =~= tail);
    } else {
        let k = chunk_len(d.len());
        let c = d.take(k as int);
        let z = zlib_compressed(c);
        let rest = d.skip(k as int);
        let s = spec_file_blocks(d) + tail;
        assert(rest.len() == d.len() - k);
        assert((rest.len() + 8191) / 8192 + 1 == (d.len() + 8191) / 8192);
        lemma_file_blocks_headers(rest, tail, (budget - 1) as nat);
        lemma_u32_roundtrip(z.len() as u32);
        lemma_u32_roundtrip(k as u32);
        assert(spec_chunk_block(c) == le_u32(z.len() as u32) + le_u32(c.len() as u32) + z);
        assert(s =~= le_u32(z.len() as u32) + le_u32(k as u32) + z + (spec_file_blocks(rest) + tail));
        assert(u32_at(s, 0) == u32_at(le_u32(z.len() as u32), 0));
        assert(u32_at(s, 4) == u32_at(le_u32(k as u32), 0));
        let h = BlockHeader::decode(s);
        assert(h.compressed_size == z.len());
        assert(h.uncompressed_size == k);
        assert(after(s, 8 + h.compressed_size) =~= spec_file_blocks(rest) + tail);
        assert(h.within_limits());
        assert(budget > 0);
        assert(crate::pfs::blocks::header_failure(s, d.len(), budget) is None);
    }
}

/// The magic number and version, as the header stores them after the index offset.
pub open spec fn header_tail() -> Seq<u8> {
    le_u32(Header::MAGIC_NUMBER) + le_u32(Header::VERSION)
}

/// The writer's buffer holds the blocks of contents `c` where `e` says.
pub open spec fn stores(m: WriterModel, e: IndexEntry, c: Seq<u8>) -> bool {
    let b = spec_file_blocks(c);
    &&& 12 <= e.data_offset
    &&& e.data_offset + b.len() <= m.pos
    &&& m.data.subrange(e.data_offset as int, e.data_offset + b.len()) == b
    &&& e.uncompressed_size == c.len()
    &&& chunks_round_trip(c)
    &&& chunks_fit(c)
}

/// The writer holds exactly the files `files` (name to contents), as a new
/// archive does after its files were inserted: the buffer ends at the write
/// position, which fits the 32-bit offsets; the header is in place; each
/// entry is named once, keyed by its name's CRC and stores its contents.
pub open spec fn holds_files(m: WriterModel, files: Map<Seq<char>, Seq<u8>>) -> bool {
    &&& m.pos == m.data.len()
    &&& 12 <= m.pos < 0x1_0000_0000
    &&& m.data.subrange(4, 12) == header_tail()
    &&& m.directory is None
    &&& forall|i: int| 0 <= i < m.entries.len() ==> {
        let n = #[trigger] m.entries[i].0@;
        let e = m.entries[i].1;
        &&& files.contains_key(n)
        &&& e.filename_crc == spec_filename_crc(n)
        &&& stores(m, e, files[n])
    }
    &&& forall|i: int, j: int| 0 <= i < j < m.entries.len() ==> #[trigger] m.entries[i].0@ != #[trigger] m.entries[j].0@
    &&& forall|n: Seq<char>| #[trigger] files.contains_key(n) ==> has_name(m.entries, n)
}

/// A writer just created on an empty buffer holds no files.
pub proof fn lemma_created_holds_nothing(m: WriterModel)
    requires
        m == (WriterModel {
            data: written(Seq::empty(), 0, spec_new_header()),
            pos: 12,
            entries: Seq::empty(),
            directory: None,
            footer: None,
        }),
    ensures
        holds_files(m, Map::empty()),
{
    lemma_written_at_end(Seq::empty(), spec_new_header());
    assert(Seq::<u8>::empty() + spec_new_header() =~= spec_new_header());
    assert(m.data.subrange(4, 12) =~= header_tail());
}

/// What `without_name` keeps: the entries of `s` not named `n`, in order; a
/// list with distinct names stays so.
pub proof fn lemma_without_name(s: Seq<(String, IndexEntry)>, n: Seq<char>)
    ensures
        ({
            let w = without_name(s, n);
            &&& forall|i: int| 0 <= i < w.len() ==> (#[trigger] w[i]).0@ != n && s.contains(w[i])
            &&& forall|x: (String, IndexEntry)| s.contains(x) && x.0@ != n ==> #[trigger] w.contains(x)
            &&& (forall|i: int, j: int| 0 <= i < j < s.len() ==> #[trigger] s[i].0@ != #[trigger] s[j].0@)
                ==> (forall|i: int, j: int| 0 <= i < j < w.len() ==> #[trigger] w[i].0@ != #[trigger] w[j].0@)
        }),
    decreases s.len(),
{
    let w = without_name(s, n);
    if s.len() > 0 {
        let p = s.drop_last();
        lemma_without_name(p, n);
        let r = without_name(p, n);
        assert forall|i: int| 0 <= i < w.len() implies (#[trigger] w[i]).0@ != n && s.contains(w[i]) by {
            if i < r.len() {
                assert(w[i] == r[i]);
                assert(r[i].0@ != n && p.contains(r[i]));
                let j = choose|j: int| 0 <= j < p.len() && p[j] == r[i];
                assert(s[j] == w[i]);
            } else {
                assert(w[i] == s.last());
                assert(s[s.len() - 1] == w[i]);
            }
        }
        assert forall|x: (String, IndexEntry)| s.contains(x) && x.0@ != n implies #[trigger] w.contains(x) by {
            let j = choose|j: int| 0 <= j < s.len() && s[j] == x;
            if j < p.len() {
                assert(p[j] == x);
                assert(r.contains(x));
                let k = choose|k: int| 0 <= k < r.len() && r[k] == x;
                assert(w[k] == x);
            } else {
                assert(w[w.len() - 1] == x);
            }
        }
        if forall|i: int, j: int| 0 <= i < j < s.len() ==> #[trigger] s[i].0@ != #[trigger] s[j].0@ {
            assert forall|i: int, j: int| 0 <= i < j < p.len() implies #[trigger] p[i].0@ != #[trigger] p[j].0@ by {
                assert(s[i] == p[i] && s[j] == p[j]);
            }
            assert forall|i: int, j: int| 0 <= i < j < w.len() implies #[trigger] w[i].0@ != #[trigger] w[j].0@ by {
                if j < r.len() {
                    assert(w[i] == r[i] && w[j] == r[j]);
                } else {
                    assert(w[j] == s.last());
                    assert(w[i] == r[i]);
                    assert(r[i].0@ != n && p.contains(r[i]));
                    let k = choose|k: int| 0 <= k < p.len() && p[k] == r[i];
                    assert(s[k] == p[k]);
                    assert(s[s.len() - 1] == s.last());
                }
            }
        }
    }
}

/// Removing a file keeps the writer's names distinct, and so does an insert
/// that failed, which leaves the entries without that name.
pub proof fn lemma_remove_keeps_names_distinct(entries: Seq<(String, IndexEntry)>, name: Seq<char>)
    requires
        names_distinct(entries),
    ensures
        names_distinct(without_name(entries, name)),
{
    lemma_without_name(entries, name);
}

/// Inserting a file keeps the writer's names distinct: the entries after a
/// successful insert are the others followed by the new name. A writer
/// starts with no entries, so after any run of inserts and removes each
/// name stands once.
pub proof fn lemma_insert_keeps_names_distinct(m: WriterModel, n: WriterModel, name: Seq<char>)
    requires
        names_distinct(m.entries),
        n.entries.len() == without_name(m.entries, name).len() + 1,
        n.entries.drop_last() == without_name(m.entries, name),
        n.entries.last().0@ == name,
    ensures
        names_distinct(n.entries),
{
    let kept = without_name(m.entries, name);
    lemma_without_name(m.entries, name);
    assert forall|i: int, j: int| 0 <= i < j < n.entries.len() implies #[trigger] n.entries[i].0@ != #[trigger] n.entries[j].0@ by {
        assert(n.entries[i] == kept[i]);
        if j < kept.len() {
            assert(n.entries[j] == kept[j]);
        } else {
            assert(n.entries[j] == n.entries.last());
        }
    }
}

/// Inserting a file keeps every other file and adds the new one, when its
/// chunks fit a block and the archive stays within 32-bit offsets.
pub proof fn lemma_insert_keeps_files(
    m: WriterModel,
    n: WriterModel,
    files: Map<Seq<char>, Seq<u8>>,
    name: Seq<char>,
    d: Seq<u8>,
)
    requires
        holds_files(m, files),
        n.entries.len() == without_name(m.entries, name).len() + 1,
        n.entries.drop_last() == without_name(m.entries, name),
        n.entries.last().0@ == name,
        n.entries.last().1 == (IndexEntry {
            filename_crc: spec_filename_crc(name),
            data_offset: m.pos as u32,
            uncompressed_size: d.len() as u32,
        }),
        n.data == written(m.data, m.pos, spec_file_blocks(d)),
        n.pos == m.pos + spec_file_blocks(d).len(),
        n.directory is None,
        chunks_round_trip(d),
        chunks_fit(d),
        d.len() <= u32::MAX,
        n.pos < 0x1_0000_0000,
    ensures
        holds_files(n, files.insert(name, d)),
{
    let b = spec_file_blocks(d);
    let f2 = files.insert(name, d);
    let kept = without_name(m.entries, name);
    lemma_written_at_end(m.data, b);
    lemma_without_name(m.entries, name);
    assert(n.data == m.data + b);
    assert(n.data.subrange(4, 12) =~= m.data.subrange(4, 12));
    assert forall|i: int| 0 <= i < n.entries.len() implies {
        let nm = #[trigger] n.entries[i].0@;
        let e = n.entries[i].1;
        &&& f2.contains_key(nm)
        &&& e.filename_crc == spec_filename_crc(nm)
        &&& stores(n, e, f2[nm])
    } by {
        if i < kept.len() {
            assert(n.entries[i] == kept[i]);
            assert(kept[i].0@ != name && m.entries.contains(kept[i]));
            let j = choose|j: int| 0 <= j < m.entries.len() && m.entries[j] == kept[i];
            let e = kept[i].1;
            let c = files[kept[i].0@];
            assert(m.entries[j].0@ == kept[i].0@);
            assert(stores(m, e, c));
            let bb = spec_file_blocks(c);
            assert(n.data.subrange(e.data_offset as int, e.data_offset + bb.len())
                =~= m.data.subrange(e.data_offset as int, e.data_offset + bb.len()));
        } else {
            assert(n.entries[i] == n.entries.last());
            assert(n.data.subrange(m.pos as int, (m.pos + b.len()) as int) =~= b);
        }
    }
    assert forall|i: int, j: int| 0 <= i < j < n.entries.len() implies #[trigger] n.entries[i].0@ != #[trigger] n.entries[j].0@ by {
        assert(forall|a: int, b: int| 0 <= a < b < m.entries.len() ==> #[trigger] m.entries[a].0@ != #[trigger] m.entries[b].0@);
        if j < kept.len() {
            assert(n.entries[i] == kept[i] && n.entries[j] == kept[j]);
            assert(kept[i].0@ != kept[j].0@);
        } else {
            assert(n.entries[i] == kept[i]);
            assert(kept[i].0@ != name && m.entries.contains(kept[i]));
        }
    }
    assert forall|nm: Seq<char>| #[trigger] f2.contains_key(nm) implies has_name(n.entries, nm) by {
        if nm == name {
            assert(n.entries[n.entries.len() - 1].0@ == nm);
        } else {
            assert(files.contains_key(nm));
            let j = choose|j: int| 0 <= j < m.entries.len() && #[trigger] m.entries[j].0@ == nm;
            assert(m.entries.contains(m.entries[j]));
            assert(kept.contains(m.entries[j]));
            let k = choose|k: int| 0 <= k < kept.len() && kept[k] == m.entries[j];
            assert(n.entries[k] == kept[k]);
        }
    }
}

/// The serialized entries take 12 bytes each.
pub proof fn lemma_index_entries_len(es: Seq<IndexEntry>)
    ensures
        index_entries_bytes(es).len() == 12 * es.len(),
    decreases es.len(),
{
    if es.len() > 0 {
        lemma_index_entries_len(es.drop_last());
        lemma_index_entry_roundtrip(es.last(), Seq::empty());
    }
}

/// Entry `i` of serialized entries is read back from its place.
#[verifier::spinoff_prover]
#[verifier::rlimit(50)]
pub proof fn lemma_index_entries_decode(es: Seq<IndexEntry>, tail: Seq<u8>, i: int)
    requires
        0 <= i < es.len(),
    ensures
        IndexEntry::decode((index_entries_bytes(es) + tail).skip(12 * i)) == es[i],
    decreases es.len(),
{
    let p = es.drop_last();
    let x = es.last();
    lemma_index_entries_len(p);
    lemma_index_entry_roundtrip(x, tail);
    assert(index_entries_bytes(es) + tail =~= index_entries_bytes(p) + (x.spec_to_bytes() + tail));
    if i < p.len() {
        lemma_index_entries_decode(p, x.spec_to_bytes() + tail, i);
    } else {
        assert((index_entries_bytes(p) + (x.spec_to_bytes() + tail)).skip(12 * i) =~= x.spec_to_bytes() + tail);
    }
}

/// Without an entry of the directory's CRC there is no directory entry.
pub proof fn lemma_no_directory_entry(es: Seq<IndexEntry>)
    requires
        forall|i: int| 0 <= i < es.len() ==> (#[trigger] es[i]).filename_crc != IndexEntry::DIRECTORY_CRC,
    ensures
        spec_directory_entry(es) is None,
    decreases es.len(),
{
    if es.len() > 0 {
        assert forall|i: int| 0 <= i < es.drop_last().len() implies (#[trigger] es.drop_last()[i]).filename_crc
            != IndexEntry::DIRECTORY_CRC by {
            assert(es.drop_last()[i] == es[i]);
        }
        lemma_no_directory_entry(es.drop_last());
        assert(es[es.len() - 1] == es.last());
    }
}

/// An entry that is the only one of its CRC is what the index map holds
/// under that CRC.
pub proof fn lemma_index_map_lookup(es: Seq<IndexEntry>, e: IndexEntry)
    requires
        es.contains(e),
        e.filename_crc != IndexEntry::DIRECTORY_CRC,
        forall|i: int| 0 <= i < es.len() && (#[trigger] es[i]).filename_crc == e.filename_crc ==> es[i] == e,
    ensures
        spec_index_map(es).contains_key(e.filename_crc),
        spec_index_map(es)[e.filename_crc] == e,
    decreases es.len(),
{
    let p = es.drop_last();
    if es.last() == e {
    } else {
        let j = choose|j: int| 0 <= j < es.len() && es[j] == e;
        assert(j < p.len());
        assert(p[j] == e);
        assert forall|i: int| 0 <= i < p.len() && (#[trigger] p[i]).filename_crc == e.filename_crc implies p[i] == e by {
            assert(p[i] == es[i]);
        }
        lemma_index_map_lookup(p, e);
        assert(es[es.len() - 1] == es.last());
        assert(es.last().filename_crc != e.filename_crc);
    }
}

/// No two files share a CRC, and none has the directory's.
pub open spec fn crcs_distinct(entries: Seq<(String, IndexEntry)>) -> bool {
    &&& forall|i: int| 0 <= i < entries.len() ==> (#[trigger] entries[i]).1.filename_crc != IndexEntry::DIRECTORY_CRC
    &&& forall|i: int, j: int| 0 <= i < j < entries.len() ==> (#[trigger] entries[i]).1.filename_crc
        != (#[trigger] entries[j]).1.filename_crc
}

/// The sorted index lists exactly the writer's entries.
proof fn lemma_sorted_entries(entries: Seq<(String, IndexEntry)>, x: IndexEntry)
    ensures
        spec_sorted_entries(entries).len() == entries.len(),
        spec_sorted_entries(entries).contains(x) <==> exists|i: int| 0 <= i < entries.len() && (#[trigger] entries[i]).1 == x,
{
    let k = keyed_entries(entries);
    let srt = sort_seq_by_key(k);
    let f = |p: (u32, (String, IndexEntry))| p.1.1;
    lemma_sort_contains(k, (0u32, entries[0]));
    if spec_sorted_entries(entries).contains(x) {
        let j = choose|j: int| 0 <= j < srt.len() && srt.map_values(f)[j] == x;
        let p = srt[j];
        lemma_sort_contains(k, p);
        assert(srt.contains(p));
        let i = choose|i: int| 0 <= i < k.len() && k[i] == p;
        assert(entries[i].1 == x);
    }
    if exists|i: int| 0 <= i < entries.len() && (#[trigger] entries[i]).1 == x {
        let i = choose|i: int| 0 <= i < entries.len() && (#[trigger] entries[i]).1 == x;
        let p = k[i];
        assert(k.contains(p));
        lemma_sort_contains(k, p);
        let j = choose|j: int| 0 <= j < srt.len() && srt[j] == p;
        assert(srt.map_values(f)[j] == x);
    }
}

/// The shape of a finished archive: the header holds the index offset
/// (where the old buffer and the directory's blocks end) and the magic
/// number and version; the index and footer follow there; the files' bytes
/// are untouched.
#[verifier::spinoff_prover]
proof fn lemma_finish_shape(m: WriterModel, files: Map<Seq<char>, Seq<u8>>, ts: u32)
    requires
        holds_files(m, files),
        spec_with_directory(m).1 < 0x1_0000_0000,
    ensures
        ({
            let b = spec_finish(m, ts);
            let pos1 = spec_with_directory(m).1;
            let idx = spec_index_bytes(m.entries, spec_final_directory(m));
            let foot = spec_footer_bytes(m.directory is Some, m.footer, ts);
            &&& b.len() == pos1 + idx.len() + foot.len()
            &&& Header::decode(b) == (Header { index_offset: pos1 as u32, magic_number: Header::MAGIC_NUMBER, version: Header::VERSION })
            &&& after(b, pos1 as int) == idx + foot
            &&& forall|a: int, c: int| 12 <= a <= c <= m.pos ==> #[trigger] b.subrange(a, c) == m.data.subrange(a, c)
            &&& b.subrange(m.pos as int, pos1 as int) == spec_file_blocks(spec_directory_contents(m.entries))
        }),
{
    let (data1, pos1) = spec_with_directory(m);
    let f = spec_directory_contents(m.entries);
    let blocks = spec_file_blocks(f);
    lemma_written_at_end(m.data, blocks);
    let io = pos1 as u32;
    let data2 = written(data1, 0, le_u32(io));
    let idx = spec_index_bytes(m.entries, spec_final_directory(m));
    assert(data2.len() == pos1);
    lemma_written_at_end(data2, idx);
    let data3 = data2 + idx;
    let foot = spec_footer_bytes(m.directory is Some, m.footer, ts);
    lemma_written_at_end(data3, foot);
    let b = data3 + foot;
    assert(b == spec_finish(m, ts));
    assert(b.subrange(4, 12) =~= m.data.subrange(4, 12));
    lemma_u32_roundtrip(io);
    lemma_u32_roundtrip(Header::MAGIC_NUMBER);
    lemma_u32_roundtrip(Header::VERSION);
    assert(u32_at(b, 0) == u32_at(le_u32(io), 0));
    assert(u32_at(b, 4) == u32_at(header_tail(), 0));
    assert(u32_at(b, 8) == u32_at(header_tail(), 4));
    assert(after(b, pos1 as int) =~= idx + foot);
    assert forall|a: int, c: int| 12 <= a <= c <= m.pos implies #[trigger] b.subrange(a, c) == m.data.subrange(a, c) by {
        assert(b.subrange(a, c) =~= m.data.subrange(a, c));
    }
    assert(b.subrange(m.pos as int, pos1 as int) =~= blocks);
}

/// The index section of a finished archive reads back as the sorted file
/// entries followed by the directory's entry.
#[verifier::spinoff_prover]
proof fn lemma_index_section(entries: Seq<(String, IndexEntry)>, dir: IndexEntry, foot: Seq<u8>)
    requires
        crcs_distinct(entries),
        entries.len() < 100000,
        dir.filename_crc == IndexEntry::DIRECTORY_CRC,
    ensures
        ({
            let s = spec_index_bytes(entries, dir) + foot;
            let count = (entries.len() + 1) as u32;
            let sorted = spec_sorted_entries(entries);
            &&& s.len() >= 4
            &&& u32_at(s, 0) == count
            &&& s.len() >= 4 + 12 * count
            &&& spec_index_entries(s.skip(4), count as nat) == sorted.push(dir)
            &&& s.skip(4 + 12 * count) == foot
            &&& spec_directory_entry(sorted.push(dir)) == Some(dir)
            &&& spec_index_map(sorted.push(dir)) == spec_index_map(sorted)
        }),
{
    let s = spec_index_bytes(entries, dir) + foot;
    let count = (entries.len() + 1) as u32;
    let sorted = spec_sorted_entries(entries);
    lemma_sorted_entries(entries, dir);
    lemma_index_entries_len(sorted);
    lemma_u32_roundtrip(count);
    assert(u32_at(s, 0) == u32_at(le_u32(count), 0));
    lemma_index_entry_roundtrip(dir, foot);
    let all = sorted.push(dir);
    let body = s.skip(4);
    assert(body =~= index_entries_bytes(sorted) + (dir.spec_to_bytes() + foot));
    assert forall|i: int| 0 <= i < count implies #[trigger] spec_index_entries(body, count as nat)[i] == all[i] by {
        if i < sorted.len() {
            lemma_index_entries_decode(sorted, dir.spec_to_bytes() + foot, i);
        } else {
            assert(body.skip(12 * i) =~= dir.spec_to_bytes() + foot);
        }
    }
    assert(spec_index_entries(body, count as nat) =~= all);
    assert(s.skip(4 + 12 * count) =~= foot);
    assert forall|i: int| 0 <= i < sorted.len() implies (#[trigger] sorted[i]).filename_crc != IndexEntry::DIRECTORY_CRC by {
        lemma_sorted_entries(entries, sorted[i]);
        assert(sorted.contains(sorted[i]));
    }
    lemma_no_directory_entry(sorted);
    assert(all.drop_last() =~= sorted);
    assert(all.last() == dir);
    assert(spec_directory_entry(all) == Some(dir));
    assert(spec_index_map(all) == spec_index_map(sorted));
}

/// The index map of a finished archive holds each file's own entry under its
/// CRC.
#[verifier::spinoff_prover]
proof fn lemma_lookup_file(m: WriterModel, files: Map<Seq<char>, Seq<u8>>, nm: Seq<char>)
    requires
        holds_files(m, files),
        crcs_distinct(m.entries),
        files.contains_key(nm),
    ensures
        ({
            let sorted = spec_sorted_entries(m.entries);
            &&& spec_index_map(sorted).contains_key(spec_filename_crc(nm))
            &&& stores(m, spec_index_map(sorted)[spec_filename_crc(nm)], files[nm])
        }),
{
    let sorted = spec_sorted_entries(m.entries);
    assert(has_name(m.entries, nm));
    let i = choose|i: int| 0 <= i < m.entries.len() && #[trigger] m.entries[i].0@ == nm;
    let e = m.entries[i].1;
    assert(e.filename_crc == spec_filename_crc(nm));
    lemma_sorted_entries(m.entries, e);
    assert(sorted.contains(e));
    assert forall|j: int| 0 <= j < sorted.len() && (#[trigger] sorted[j]).filename_crc == e.filename_crc implies sorted[j] == e by {
        lemma_sorted_entries(m.entries, sorted[j]);
        assert(sorted.contains(sorted[j]));
        let k = choose|k: int| 0 <= k < m.entries.len() && (#[trigger] m.entries[k]).1 == sorted[j];
        if k != i {
            if k < i {
                assert(m.entries[k].1.filename_crc != m.entries[i].1.filename_crc);
            } else {
                assert(m.entries[i].1.filename_crc != m.entries[k].1.filename_crc);
            }
        }
    }
    lemma_index_map_lookup(sorted, e);
}

/// A finished archive opens, and each file that the writer held reads back
/// as its contents: what a read gives back of a write. It holds when the
/// files' CRCs differ from each other and from the directory's, the index
/// stays within the reader's entry limit and the archive within 32-bit
/// offsets.
pub proof fn lemma_finished_archive_reads_back(m: WriterModel, files: Map<Seq<char>, Seq<u8>>, ts: u32)
    requires
        holds_files(m, files),
        crcs_distinct(m.entries),
        m.entries.len() < 100000,
        spec_with_directory(m).1 < 0x1_0000_0000,
    ensures
        ({
            let b = spec_finish(m, ts);
            &&& spec_open(b, b) is Ok
            &&& forall|nm: Seq<char>| #[trigger] files.contains_key(nm) ==> {
                let am = spec_open(b, b)->Ok_0;
                &&& am.index.contains_key(spec_filename_crc(nm))
                &&& spec_entry_data(b, am.index[spec_filename_crc(nm)]) == Ok::<Seq<u8>, crate::pfs::error::Failure>(files[nm])
            }
        }),
{
    let b = spec_finish(m, ts);
    let pos1 = spec_with_directory(m).1;
    let dir = spec_final_directory(m);
    let foot = spec_footer_bytes(m.directory is Some, m.footer, ts);
    let sorted = spec_sorted_entries(m.entries);
    lemma_finish_shape(m, files, ts);
    lemma_index_section(m.entries, dir, foot);
    assert(spec_open(b, b) is Ok);
    let am = spec_open(b, b)->Ok_0;
    assert(am.index == spec_index_map(sorted));
    assert forall|nm: Seq<char>| #[trigger] files.contains_key(nm) implies ({
        &&& am.index.contains_key(spec_filename_crc(nm))
        &&& spec_entry_data(b, am.index[spec_filename_crc(nm)]) == Ok::<Seq<u8>, crate::pfs::error::Failure>(files[nm])
    }) by {
        lemma_lookup_file(m, files, nm);
        let e = am.index[spec_filename_crc(nm)];
        let c = files[nm];
        let bl = spec_file_blocks(c);
        let off = e.data_offset as int;
        assert(b.subrange(off, off + bl.len()) == m.data.subrange(off, off + bl.len()));
        assert(after(b, off) =~= bl + b.skip(off + bl.len()));
        lemma_file_blocks_read_back(c, b.skip(off + bl.len()), crate::pfs::blocks::spec_max_blocks(e.uncompressed_size));
    }
}

/// The directory file of a finished archive, when the writer wrote it: its
/// entry gives the size of the names' listing, and it is read back as one
/// block per 8 KiB of that listing (what `directory_info` reports as the
/// block count). It holds under the conditions of the read-back law, with
/// the listing's compressed chunks fitting a block and its size 32 bits.
#[verifier::spinoff_prover]
#[verifier::rlimit(50)]
pub proof fn lemma_finished_directory_blocks(m: WriterModel, files: Map<Seq<char>, Seq<u8>>, ts: u32)
    requires
        holds_files(m, files),
        crcs_distinct(m.entries),
        m.entries.len() < 100000,
        spec_with_directory(m).1 < 0x1_0000_0000,
        chunks_fit(spec_directory_contents(m.entries)),
        spec_directory_contents(m.entries).len() < 0x1_0000_0000,
    ensures
        ({
            let b = spec_finish(m, ts);
            let c = spec_directory_contents(m.entries);
            let am = spec_open(b, b)->Ok_0;
            &&& spec_open(b, b) is Ok
            &&& am.directory.uncompressed_size == c.len()
            &&& spec_entry_headers(b, am.directory) matches Ok(hs) && hs.len() == (c.len() + 8191) / 8192
        }),
{
    let b = spec_finish(m, ts);
    let pos1 = spec_with_directory(m).1;
    let dir = spec_final_directory(m);
    let foot = spec_footer_bytes(m.directory is Some, m.footer, ts);
    let c = spec_directory_contents(m.entries);
    let blocks = spec_file_blocks(c);
    lemma_finished_archive_reads_back(m, files, ts);
    lemma_finish_shape(m, files, ts);
    lemma_index_section(m.entries, dir, foot);
    let am = spec_open(b, b)->Ok_0;
    assert(am.directory == dir);
    assert(dir.data_offset == m.pos);
    assert(pos1 == m.pos + blocks.len());
    assert(after(b, m.pos as int) =~= blocks + b.skip(pos1 as int)) by {
        assert(b.subrange(m.pos as int, pos1 as int) == blocks);
    }
    lemma_file_blocks_headers(c, b.skip(pos1 as int), crate::pfs::blocks::spec_max_blocks(dir.uncompressed_size));
}

} // verus!
