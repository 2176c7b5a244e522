//! Writing a PFS archive: a header, the files' compressed blocks, a directory
//! file listing the names, the index and the footer.
use vstd::prelude::*;
use crate::bytes::{le_u32, push_u32};
use crate::cursor::{ByteCursor, IoError, written, lemma_written_twice};
use crate::pfs::block_header::BlockHeader;
use crate::pfs::crc::{FilenameCrc, spec_filename_crc};
use crate::pfs::error::{Error, io_error};
use crate::pfs::footer::Footer;
use crate::pfs::header::Header;
use crate::pfs::index_entry::IndexEntry;
use crate::zlib::{zlib_compressed, zlib_decompressed, zlib_compress, zlib_compress_ok};
use crate::pfs::directory::{Directory, names_of, spec_entries_bytes};
use crate::sort::{sort_by_key, sort_seq_by_key};

verus! {

/// How many bytes of a file go into its next block: 8 KiB, or what is left.
pub open spec fn chunk_len(n: nat) -> nat {
    if n <= 8192 {
        n
    } else {
        8192
    }
}

/// The stored block of one chunk: its header (compressed size, then
/// uncompressed size) and the zlib stream.
pub open spec fn spec_chunk_block(c: Seq<u8>) -> Seq<u8> {
    let z = zlib_compressed(c);
    le_u32(z.len() as u32) + le_u32(c.len() as u32) + z
}

/// The blocks that store the contents `d`: one per 8 KiB chunk, in order.
pub open spec fn spec_file_blocks(d: Seq<u8>) -> Seq<u8>
    decreases d.len(),
{
    if d.len() == 0 {
        Seq::empty()
    } else {
        let k = chunk_len(d.len());
        spec_chunk_block(d.take(k as int)) + spec_file_blocks(d.skip(k as int))
    }
}

/// Each chunk of `d` decompresses back to itself.
pub open spec fn chunks_round_trip(d: Seq<u8>) -> bool
    decreases d.len(),
{
    if d.len() == 0 {
        true
    } else {
        let k = chunk_len(d.len());
        &&& zlib_decompressed(zlib_compressed(d.take(k as int))) == Ok::<Seq<u8>, IoError>(d.take(k as int))
        &&& chunks_round_trip(d.skip(k as int))
    }
}

/// The compressor completes for each chunk of `d`.
pub open spec fn chunks_compress_ok(d: Seq<u8>) -> bool
    decreases d.len(),
{
    if d.len() == 0 {
        true
    } else {
        let k = chunk_len(d.len());
        &&& zlib_compress_ok(d.take(k as int))
        &&& chunks_compress_ok(d.skip(k as int))
    }
}

/// Each chunk of `d` compresses to at most `MAX_COMPRESSED_SIZE` bytes, the
/// most a reader accepts.
pub open spec fn chunks_fit(d: Seq<u8>) -> bool
    decreases d.len(),
{
    if d.len() == 0 {
        true
    } else {
        let k = chunk_len(d.len());
        &&& zlib_compressed(d.take(k as int)).len() <= 8320
        &&& chunks_fit(d.skip(k as int))
    }
}

/// `entries` without those named `name`, the others in order.
pub open spec fn without_name(entries: Seq<(String, IndexEntry)>, name: Seq<char>) -> Seq<
    (String, IndexEntry),
>
    decreases entries.len(),
{
    if entries.len() == 0 {
        entries
    } else {
        let rest = without_name(entries.drop_last(), name);
        if entries.last().0@ == name {
            rest
        } else {
            rest.push(entries.last())
        }
    }
}

/// No two entries carry the same name.
pub open spec fn names_distinct(entries: Seq<(String, IndexEntry)>) -> bool {
    forall|i: int, j: int| 0 <= i < j < entries.len() ==> #[trigger] entries[i].0@ != #[trigger] entries[j].0@
}

/// Whether some entry is named `name`.
pub open spec fn has_name(entries: Seq<(String, IndexEntry)>, name: Seq<char>) -> bool {
    exists|i: int| 0 <= i < entries.len() && #[trigger] entries[i].0@ == name
}

/// Writes the blocks of the contents `d` at the writer's position.
pub fn write_file(writer: &mut ByteCursor, reader: &mut ByteCursor) -> (r: Result<(), Error>)
    requires
        old(writer).pos() <= old(writer).data().len(),
    ensures
        final(reader).data() == old(reader).data(),
        final(writer).pos() <= final(writer).data().len(),
        old(writer).pos() + spec_file_blocks(old(reader).rest()).len() <= usize::MAX && chunks_compress_ok(
            old(reader).rest(),
        ) ==> r is Ok,
        r is Ok ==> {
            let d = old(reader).rest();
            &&& final(writer).data() == written(old(writer).data(), old(writer).pos(), spec_file_blocks(d))
            &&& final(writer).pos() == old(writer).pos() + spec_file_blocks(d).len()
            &&& chunks_round_trip(d)
        },
{
    let ghost d = reader.rest();
    let ghost data0 = writer.data();
    let ghost pos0 = writer.pos();
    let ghost mut done: Seq<u8> = Seq::empty();
    proof {
        assert(written(data0, pos0, done) =~= data0);
    }
    loop
        invariant
            reader.data() == old(reader).data(),
            d == old(reader).rest(),
            data0 == old(writer).data(),
            pos0 == old(writer).pos(),
            pos0 <= data0.len(),
            writer.pos() <= writer.data().len(),
            writer.data() == written(data0, pos0, done),
            spec_file_blocks(d) == done + spec_file_blocks(reader.rest()),
            chunks_round_trip(reader.rest()) ==> chunks_round_trip(d),
            writer.pos() == pos0 + done.len(),
            pos0 + spec_file_blocks(d).len() <= usize::MAX && chunks_compress_ok(d) ==> writer.pos()
                + spec_file_blocks(reader.rest()).len() <= usize::MAX && chunks_compress_ok(reader.rest()),
        decreases reader.rest().len(),
    {
        let pos = reader.position();
        let len = reader.get_ref().len();
        let avail = if pos <= len { len - pos } else { 0 };
        if avail == 0 {
            proof {
                assert(reader.rest().len() == 0);
                assert(spec_file_blocks(reader.rest()) == Seq::<u8>::empty());
                assert(chunks_round_trip(reader.rest()));
                assert(done + Seq::<u8>::empty() =~= done);
            }
            return Ok(());
        }
        let n = if avail <= 8192 { avail } else { 8192 };
        let ghost s = reader.rest();
        let chunk = match reader.read_exact(n) {
            Ok(c) => c,
            Err(e) => return Err(io_error(e)),
        };
        proof {
            assert(chunk@ == s.take(n as int));
            assert(reader.rest() =~= s.skip(n as int));
            assert(spec_file_blocks(s) == spec_chunk_block(chunk@) + spec_file_blocks(s.skip(n as int)));
        }
        let compressed = match zlib_compress(chunk.as_slice()) {
            Some(c) => c,
            None => return Err(io_error(IoError::InvalidData)),
        };
        let header = BlockHeader { compressed_size: #[verifier::truncate] (compressed.len() as u32), uncompressed_size: n as u32 };
        let hb = header.to_bytes();
        let ghost before = writer.data();
        let ghost p = writer.pos();
        match writer.write_all(hb.as_slice()) {
            Ok(()) => {},
            Err(e) => return Err(io_error(e)),
        }
        match writer.write_all(compressed.as_slice()) {
            Ok(()) => {},
            Err(e) => return Err(io_error(e)),
        }
        proof {
            let blk = spec_chunk_block(chunk@);
            assert(hb@ + compressed@ =~= blk);
            lemma_written_twice(before, p, hb@, compressed@);
            lemma_written_twice(data0, pos0, done, blk);
            assert(spec_file_blocks(s) == blk + spec_file_blocks(s.skip(n as int)));
            assert(done + spec_file_blocks(s) =~= (done + blk) + spec_file_blocks(s.skip(n as int)));
            done = done + blk;
            assert(done.len() > 0);
        }
    }
}


/// The header of a new archive: index offset 0, then the magic number and version.
pub open spec fn spec_new_header() -> Seq<u8> {
    (Header { index_offset: 0, magic_number: Header::MAGIC_NUMBER, version: Header::VERSION }).spec_to_bytes()
}

/// The state of a writer, as plain values.
pub struct WriterModel {
    /// The buffer written so far.
    pub data: Seq<u8>,
    /// Where the next bytes go.
    pub pos: nat,
    /// The files, with their index entries, in the order they were written.
    pub entries: Seq<(String, IndexEntry)>,
    /// The index entry of a directory file already written after the last
    /// file; `None` once the list of files has changed.
    pub directory: Option<IndexEntry>,
    /// The footer of the archive this writer was made from, if any.
    pub footer: Option<Footer>,
}

/// Builds a PFS archive in a byte buffer: files are compressed and written as
/// they are inserted; `finish` adds the directory, the index and the footer.
pub struct EqArchiveWriter {
    pub(crate) writer: ByteCursor,
    pub(crate) entries: Vec<(String, IndexEntry)>,
    pub(crate) directory: Option<IndexEntry>,
    pub(crate) footer: Option<Footer>,
}

/// `entries` keeps the entries of `before` not named `name`, in order.
fn retain_others(before: &Vec<(String, IndexEntry)>, name: &String) -> (r: (Vec<(String, IndexEntry)>, bool))
    ensures
        r.0@ == without_name(before@, name@),
        r.1 == has_name(before@, name@),
{
    let mut kept: Vec<(String, IndexEntry)> = Vec::new();
    let mut found = false;
    let mut i: usize = 0;
    while i < before.len()
        invariant
            i <= before@.len(),
            kept@ == without_name(before@.take(i as int), name@),
            found == has_name(before@.take(i as int), name@),
        decreases before@.len() - i,
    {
        let same = before[i].0 == *name;
        proof {
            assert(before@.take(i + 1).drop_last() =~= before@.take(i as int));
            assert(before@.take(i + 1).last() == before@[i as int]);
            if has_name(before@.take(i + 1), name@) && !same {
                let j = choose|j: int| 0 <= j < i + 1 && #[trigger] before@.take(i + 1)[j].0@ == name@;
                assert(before@.take(i as int)[j].0@ == name@);
            }
            if same {
                assert(before@.take(i + 1)[i as int].0@ == name@);
            }
            if found {
                let j = choose|j: int| 0 <= j < i && #[trigger] before@.take(i as int)[j].0@ == name@;
                assert(before@.take(i + 1)[j].0@ == name@);
            }
        }
        if !same {
            let n = before[i].0.clone();
            let e = before[i].1;
            kept.push((n, e));
        } else {
            found = true;
        }
        i = i + 1;
    }
    proof {
        assert(before@.take(i as int) =~= before@);
    }
    (kept, found)
}

impl EqArchiveWriter {
    pub closed spec fn model(&self) -> WriterModel {
        WriterModel {
            data: self.writer.data(),
            pos: self.writer.pos(),
            entries: self.entries@,
            directory: self.directory,
            footer: self.footer,
        }
    }

    /// The write position lies within the buffer.
    #[verifier::type_invariant]
    pub(crate) open spec fn wf(&self) -> bool {
        self.writer.pos() <= self.writer.data().len()
    }

    /// What the model and the invariant are made of.
    pub(crate) proof fn lemma_fields(&self)
        ensures
            self.model() == (WriterModel {
                data: self.writer.data(),
                pos: self.writer.pos(),
                entries: self.entries@,
                directory: self.directory,
                footer: self.footer,
            }),
    {
    }

    /// Starts a new archive in `writer`, writing the header at its position.
    pub fn create(writer: ByteCursor) -> (r: Result<Self, Error>)
        ensures
            writer.pos() + 12 <= usize::MAX ==> r is Ok && r->Ok_0.model() == (WriterModel {
                data: written(writer.data(), writer.pos(), spec_new_header()),
                pos: writer.pos() + 12,
                entries: Seq::empty(),
                directory: None,
                footer: None,
            }),
            writer.pos() + 12 > usize::MAX ==> r == Err::<Self, Error>(Error::IO(IoError::InvalidInput)),
            r is Ok ==> names_distinct(r->Ok_0.model().entries),
    {
        let mut writer = writer;
        let header = Header::default().to_bytes();
        match writer.write_all(header.as_slice()) {
            Ok(()) => {},
            Err(e) => return Err(io_error(e)),
        }
        Ok(EqArchiveWriter { writer, entries: Vec::new(), directory: None, footer: None })
    }

    /// Adds the file `filename` with the remaining contents of `reader`,
    /// replacing any file of that name. Returns whether one was replaced.
    /// The directory is written anew at `finish`.
    pub fn insert(&mut self, filename: &str, reader: ByteCursor) -> (r: Result<bool, Error>)
        ensures
            final(self).model().directory is None,
            names_distinct(old(self).model().entries) ==> names_distinct(final(self).model().entries),
            final(self).model().footer == old(self).model().footer,
            old(self).model().pos + spec_file_blocks(reader.rest()).len() <= usize::MAX && chunks_compress_ok(
                reader.rest(),
            ) ==> r is Ok,
            ({
                let m = old(self).model();
                let n = final(self).model();
                let d = reader.rest();
                let kept = without_name(m.entries, filename@);
                match r {
                    Ok(replaced) => {
                        &&& replaced == has_name(m.entries, filename@)
                        &&& n.entries.len() == kept.len() + 1
                        &&& n.entries.drop_last() == kept
                        &&& n.entries.last().0@ == filename@
                        &&& n.entries.last().1 == (IndexEntry {
                            filename_crc: spec_filename_crc(filename@),
                            data_offset: m.pos as u32,
                            uncompressed_size: d.len() as u32,
                        })
                        &&& n.data == written(m.data, m.pos, spec_file_blocks(d))
                        &&& n.pos == m.pos + spec_file_blocks(d).len()
                        &&& chunks_round_trip(d)
                    },
                    Err(_) => n.entries == kept,
                }
            }),
    {
        proof {
            use_type_invariant(&*self);
        }
        let name = filename.to_owned();
        let (kept, replaced) = retain_others(&self.entries, &name);
        self.entries = kept;
        self.directory = None;
        let data_offset = #[verifier::truncate] (self.writer.position() as u32);
        let mut reader = reader;
        let size = #[verifier::truncate] ((reader.get_ref().len() - if reader.position() <= reader.get_ref().len() { reader.position() } else { reader.get_ref().len() }) as u32);
        // The buffer is taken out while it is written to and put back after,
        // so that the writer's invariant holds at every step.
        let mut out = ByteCursor::new(Vec::new());
        std::mem::swap(&mut out, &mut self.writer);
        let done = write_file(&mut out, &mut reader);
        std::mem::swap(&mut out, &mut self.writer);
        proof {
            if names_distinct(old(self).model().entries) {
                crate::archive::laws::lemma_remove_keeps_names_distinct(old(self).model().entries, filename@);
            }
        }
        match done {
            Ok(()) => {},
            Err(e) => return Err(e),
        }
        let crc = FilenameCrc::new(filename);
        let mut entries: Vec<(String, IndexEntry)> = Vec::new();
        std::mem::swap(&mut entries, &mut self.entries);
        let ghost kept = entries@;
        entries.push((name, IndexEntry { filename_crc: crc.0, data_offset, uncompressed_size: size }));
        self.entries = entries;
        proof {
            assert(self.entries@.drop_last() =~= kept);
            if names_distinct(old(self).model().entries) {
                crate::archive::laws::lemma_insert_keeps_names_distinct(old(self).model(), self.model(), filename@);
            }
        }
        Ok(replaced)
    }

    /// Removes the file `filename`; returns whether there was one.
    pub fn remove(&mut self, filename: &str) -> (r: bool)
        ensures
            names_distinct(old(self).model().entries) ==> names_distinct(final(self).model().entries),
            r == has_name(old(self).model().entries, filename@),
            final(self).model() == (WriterModel {
                entries: without_name(old(self).model().entries, filename@),
                directory: if r { None } else { old(self).model().directory },
                ..old(self).model()
            }),
    {
        proof {
            use_type_invariant(&*self);
        }
        let name = filename.to_owned();
        let (kept, removed) = retain_others(&self.entries, &name);
        self.entries = kept;
        if removed {
            self.directory = None;
        }
        proof {
            if names_distinct(old(self).model().entries) {
                crate::archive::laws::lemma_remove_keeps_names_distinct(old(self).model().entries, filename@);
            }
        }
        removed
    }

    /// The names of the files, in the order they were written.
    pub fn filenames(&self) -> (r: Vec<String>)
        ensures
            r@.len() == self.model().entries.len(),
            forall|i: int| 0 <= i < r@.len() ==> #[trigger] r@[i] == self.model().entries[i].0,
            names_distinct(self.model().entries) ==> forall|i: int, j: int| 0 <= i < j < r@.len() ==> #[trigger] r@[i]@
                != #[trigger] r@[j]@,
    {
        let mut out: Vec<String> = Vec::new();
        let mut i: usize = 0;
        while i < self.entries.len()
            invariant
                i <= self.entries@.len(),
                out@.len() == i,
                forall|k: int| 0 <= k < i ==> #[trigger] out@[k] == self.entries@[k].0,
            decreases self.entries@.len() - i,
        {
            out.push(self.entries[i].0.clone());
            i = i + 1;
        }
        out
    }
}


/// The names keyed by their CRC, in the writer's order.
pub open spec fn keyed_names(entries: Seq<(String, IndexEntry)>) -> Seq<(u32, String)> {
    entries.map_values(|e: (String, IndexEntry)| (spec_filename_crc(e.0@), e.0))
}

/// The names as the directory file lists them: stably sorted by CRC.
pub open spec fn spec_directory_names(entries: Seq<(String, IndexEntry)>) -> Seq<String> {
    sort_seq_by_key(keyed_names(entries)).map_values(|p: (u32, String)| p.1)
}

/// The contents of the directory file for `entries`.
pub open spec fn spec_directory_contents(entries: Seq<(String, IndexEntry)>) -> Seq<u8> {
    le_u32(entries.len() as u32) + spec_entries_bytes(names_of(spec_directory_names(entries)))
}

/// The entries keyed by their CRC, in the writer's order.
pub open spec fn keyed_entries(entries: Seq<(String, IndexEntry)>) -> Seq<(u32, (String, IndexEntry))> {
    entries.map_values(|e: (String, IndexEntry)| (e.1.filename_crc, e))
}

/// The index entries as the index lists them: stably sorted by CRC.
pub open spec fn spec_sorted_entries(entries: Seq<(String, IndexEntry)>) -> Seq<IndexEntry> {
    sort_seq_by_key(keyed_entries(entries)).map_values(|p: (u32, (String, IndexEntry))| p.1.1)
}

/// Serialized index entries, in order.
pub open spec fn index_entries_bytes(es: Seq<IndexEntry>) -> Seq<u8>
    decreases es.len(),
{
    if es.len() == 0 {
        Seq::empty()
    } else {
        index_entries_bytes(es.drop_last()) + es.last().spec_to_bytes()
    }
}

/// The index section: the entry count (the files and the directory), the
/// files' entries sorted by CRC, then the directory's entry.
pub open spec fn spec_index_bytes(entries: Seq<(String, IndexEntry)>, dir: IndexEntry) -> Seq<u8> {
    le_u32((entries.len() + 1) as u32) + index_entries_bytes(spec_sorted_entries(entries)) + dir.spec_to_bytes()
}

/// The footer written at the end: an unchanged archive keeps its footer (or
/// lack of one); a changed one gets the time `ts`, and a footer with the
/// usual marker if it had none.
pub open spec fn spec_footer_bytes(unchanged: bool, footer: Option<Footer>, ts: u32) -> Seq<u8> {
    match footer {
        Some(f) => if unchanged {
            f.spec_to_bytes()
        } else {
            (Footer { footer_string: f.footer_string, timestamp: ts }).spec_to_bytes()
        },
        None => if unchanged {
            Seq::empty()
        } else {
            (Footer { footer_string: Footer::FOOTER_STRING, timestamp: ts }).spec_to_bytes()
        },
    }
}

/// The directory's index entry once `finish` has written it.
pub open spec fn spec_final_directory(m: WriterModel) -> IndexEntry {
    match m.directory {
        Some(d) => d,
        None => IndexEntry {
            filename_crc: IndexEntry::DIRECTORY_CRC,
            data_offset: m.pos as u32,
            uncompressed_size: spec_directory_contents(m.entries).len() as u32,
        },
    }
}

/// The buffer and position once the directory file is written (if needed).
pub open spec fn spec_with_directory(m: WriterModel) -> (Seq<u8>, nat) {
    if m.directory is Some {
        (m.data, m.pos)
    } else {
        let b = spec_file_blocks(spec_directory_contents(m.entries));
        (written(m.data, m.pos, b), m.pos + b.len())
    }
}

/// Whether the directory file can be written: it is there already, or its
/// chunks compress and its blocks fit after the position.
pub open spec fn spec_directory_ok(m: WriterModel) -> bool {
    m.directory is None ==> {
        let c = spec_directory_contents(m.entries);
        &&& m.pos + spec_file_blocks(c).len() <= usize::MAX
        &&& chunks_compress_ok(c)
    }
}

/// How many footer bytes `finish` writes: none for an unchanged archive
/// without a footer, else nine.
pub open spec fn spec_footer_len(m: WriterModel) -> nat {
    if m.directory is Some && m.footer is None {
        0
    } else {
        9
    }
}

/// Whether `finish` succeeds: the directory file can be written, and the
/// index and the footer fit after the index offset.
pub open spec fn spec_finish_ok(m: WriterModel) -> bool {
    let (data1, pos1) = spec_with_directory(m);
    &&& spec_directory_ok(m)
    &&& (pos1 as u32) + spec_index_bytes(m.entries, spec_final_directory(m)).len() + spec_footer_len(m) <= usize::MAX
}

/// The finished archive: the directory file written if the file list
/// changed, the index offset patched into the header, then the index and
/// the footer written at that offset.
pub open spec fn spec_finish(m: WriterModel, ts: u32) -> Seq<u8> {
    let (data1, pos1) = spec_with_directory(m);
    let io = pos1 as u32;
    let data2 = written(data1, 0, le_u32(io));
    let idx = spec_index_bytes(m.entries, spec_final_directory(m));
    let data3 = written(data2, io as nat, idx);
    written(data3, (io + idx.len()) as nat, spec_footer_bytes(m.directory is Some, m.footer, ts))
}

/// The seconds since the Unix epoch, from `std::time::SystemTime::now()`
/// (`duration_since(UNIX_EPOCH)`, then `as_secs`), truncated to 32 bits; 0 if
/// the clock reads before the epoch. It depends on the clock, so nothing is
/// claimed of it.
#[verifier::external_body]
fn current_unix_timestamp() -> (r: u32) {
    match std::time::SystemTime::now().duration_since(std::time::UNIX_EPOCH) {
        Ok(d) => d.as_secs() as u32,
        Err(_) => 0,
    }
}

impl EqArchiveWriter {
    /// Writes the directory file after the last file, unless one written
    /// since the last change is already there.
    fn write_directory(&mut self) -> (r: Result<(), Error>)
        ensures
            spec_directory_ok(old(self).model()) ==> r is Ok,
            r is Ok ==> {
                let (d, p) = spec_with_directory(old(self).model());
                &&& final(self).model() == (WriterModel {
                    data: d,
                    pos: p,
                    directory: Some(spec_final_directory(old(self).model())),
                    ..old(self).model()
                })
            },
    {
        proof {
            use_type_invariant(&*self);
        }
        if self.directory.is_some() {
            return Ok(());
        }
        let mut keyed: Vec<(u32, String)> = Vec::new();
        let mut i: usize = 0;
        while i < self.entries.len()
            invariant
                i <= self.entries@.len(),
                keyed@ == keyed_names(self.entries@).take(i as int),
            decreases self.entries@.len() - i,
        {
            let crc = FilenameCrc::new(self.entries[i].0.as_str());
            keyed.push((crc.0, self.entries[i].0.clone()));
            i = i + 1;
            proof {
                assert(keyed@ =~= keyed_names(self.entries@).take(i as int));
            }
        }
        proof {
            assert(keyed_names(self.entries@).take(i as int) =~= keyed_names(self.entries@));
        }
        let sorted = sort_by_key(keyed);
        let mut filenames: Vec<String> = Vec::new();
        let mut j: usize = 0;
        while j < sorted.len()
            invariant
                j <= sorted@.len(),
                filenames@ == sorted@.map_values(|p: (u32, String)| p.1).take(j as int),
            decreases sorted@.len() - j,
        {
            filenames.push(sorted[j].1.clone());
            j = j + 1;
            proof {
                assert(filenames@ =~= sorted@.map_values(|p: (u32, String)| p.1).take(j as int));
            }
        }
        proof {
            assert(sorted@.map_values(|p: (u32, String)| p.1).take(j as int) =~= spec_directory_names(self.entries@));
        }
        let dir = Directory { filenames };
        let bytes = dir.to_bytes();
        let uncompressed_size = #[verifier::truncate] (bytes.len() as u32);
        let data_offset = #[verifier::truncate] (self.writer.position() as u32);
        let mut cursor = ByteCursor::new(bytes);
        proof {
            assert(cursor.rest() =~= cursor.data());
        }
        let mut out = ByteCursor::new(Vec::new());
        std::mem::swap(&mut out, &mut self.writer);
        let done = write_file(&mut out, &mut cursor);
        std::mem::swap(&mut out, &mut self.writer);
        match done {
            Ok(()) => {},
            Err(e) => return Err(e),
        }
        self.directory = Some(IndexEntry {
            filename_crc: IndexEntry::DIRECTORY_CRC,
            data_offset,
            uncompressed_size,
        });
        Ok(())
    }
}


/// The index section for `entries` and the directory entry `dir`.
fn index_bytes(entries: &Vec<(String, IndexEntry)>, dir: IndexEntry) -> (r: Vec<u8>)
    ensures
        r@ == spec_index_bytes(entries@, dir),
{
        let mut keyed: Vec<(u32, (String, IndexEntry))> = Vec::new();
        let mut i: usize = 0;
        while i < entries.len()
            invariant
                i <= entries@.len(),
                keyed@ == keyed_entries(entries@).take(i as int),
            decreases entries@.len() - i,
        {
            let name = entries[i].0.clone();
            let e = entries[i].1;
            keyed.push((e.filename_crc, (name, e)));
            i = i + 1;
            proof {
                assert(keyed@ =~= keyed_entries(entries@).take(i as int));
            }
        }
        proof {
            assert(keyed_entries(entries@).take(i as int) =~= keyed_entries(entries@));
        }
        let sorted = sort_by_key(keyed);
        let mut index: Vec<u8> = Vec::new();
        let len = entries.len();
        let n = #[verifier::truncate] (len as u32);
        let count: u32 = if n == u32::MAX { 0 } else { n + 1 };
        assert(count == #[verifier::truncate] ((len + 1) as u32)) by (bit_vector)
            requires
                n == #[verifier::truncate] (len as u32),
                count == (if n == 0xffff_ffffu32 { 0u32 } else { (n + 1) as u32 }),
        ;
        push_u32(&mut index, count);
        let ghost es = sorted@.map_values(|p: (u32, (String, IndexEntry))| p.1.1);
        let mut j: usize = 0;
        while j < sorted.len()
            invariant
                j <= sorted@.len(),
                es == sorted@.map_values(|p: (u32, (String, IndexEntry))| p.1.1),
                index@ == le_u32((entries@.len() + 1) as u32) + index_entries_bytes(es.take(j as int)),
            decreases sorted@.len() - j,
        {
            let b = sorted[j].1.1.to_bytes();
            let mut k: usize = 0;
            let ghost before = index@;
            while k < b.len()
                invariant
                    k <= b@.len(),
                    index@ == before + b@.take(k as int),
                decreases b@.len() - k,
            {
                index.push(b[k]);
                k = k + 1;
                proof {
                    assert(index@ =~= before + b@.take(k as int));
                }
            }
            j = j + 1;
            proof {
                assert(es.take(j as int).drop_last() =~= es.take(j - 1));
                assert(b@.take(k as int) =~= b@);
                assert(index@ =~= le_u32((entries@.len() + 1) as u32) + index_entries_bytes(es.take(j as int)));
            }
        }
        proof {
            assert(es.take(j as int) =~= es);
        }
        let db = dir.to_bytes();
        let mut k: usize = 0;
        let ghost before = index@;
        while k < db.len()
            invariant
                k <= db@.len(),
                index@ == before + db@.take(k as int),
            decreases db@.len() - k,
        {
            index.push(db[k]);
            k = k + 1;
            proof {
                assert(index@ =~= before + db@.take(k as int));
            }
        }
        proof {
            assert(db@.take(k as int) =~= db@);
            assert(index@ =~= spec_index_bytes(entries@, dir));
        }
    index
}

/// The footer bytes that `finish` writes.
fn footer_bytes(unchanged: bool, footer: Option<Footer>, timestamp: u32) -> (r: Vec<u8>)
    ensures
        r@ == spec_footer_bytes(unchanged, footer, timestamp),
{
    match footer {
        Some(f) => if unchanged {
            f.to_bytes()
        } else {
            Footer { footer_string: f.footer_string, timestamp }.to_bytes()
        },
        None => if unchanged {
            Vec::new()
        } else {
            Footer { footer_string: Footer::FOOTER_STRING, timestamp }.to_bytes()
        },
    }
}

impl EqArchiveWriter {
    /// Completes the archive with `timestamp` as the time of a changed
    /// footer: writes the directory file if needed, patches the index offset
    /// into the header and writes the index and the footer. Returns the buffer.
    #[verifier::spinoff_prover]
    #[verifier::rlimit(40)]
    pub fn finish_at(self, timestamp: u32) -> (r: Result<ByteCursor, Error>)
        ensures
            spec_finish_ok(self.model()) ==> r is Ok,
            r is Ok ==> r->Ok_0.data() == spec_finish(self.model(), timestamp),
    {
        proof {
            use_type_invariant(&self);
        }
        let ghost m = self.model();
        let mut w = self;
        let unchanged = w.directory.is_some();
        match w.write_directory() {
            Ok(()) => {},
            Err(e) => return Err(e),
        }
        let ghost (data1, pos1) = spec_with_directory(m);
        let dir = match w.directory {
            Some(d) => d,
            None => return Err(io_error(IoError::InvalidData)),
        };
        proof {
            use_type_invariant(&w);
        }
        let mut out = ByteCursor::new(Vec::new());
        std::mem::swap(&mut out, &mut w.writer);
        // Patch the index offset into the header.
        let pos = out.position();
        let index_offset = #[verifier::truncate] (pos as u32);
        assert(index_offset as usize <= pos) by (bit_vector)
            requires
                index_offset == #[verifier::truncate] (pos as u32),
        ;
        let mut offset_bytes: Vec<u8> = Vec::new();
        push_u32(&mut offset_bytes, index_offset);
        out.seek(0);
        match out.write_all(offset_bytes.as_slice()) {
            Ok(()) => {},
            Err(e) => return Err(io_error(e)),
        }
        out.seek(index_offset as usize);
        let index = index_bytes(&w.entries, dir);
        match out.write_all(index.as_slice()) {
            Ok(()) => {},
            Err(e) => return Err(io_error(e)),
        }
        let footer_bytes = footer_bytes(unchanged, w.footer, timestamp);
        match out.write_all(footer_bytes.as_slice()) {
            Ok(()) => {},
            Err(e) => return Err(io_error(e)),
        }
        Ok(out)
    }

    /// Completes the archive, stamping a changed footer with the current time.
    pub fn finish(self) -> (r: Result<ByteCursor, Error>)
        ensures
            spec_finish_ok(self.model()) ==> r is Ok,
            r is Ok ==> exists|t: u32| r->Ok_0.data() == spec_finish(self.model(), t),
    {
        let t = current_unix_timestamp();
        self.finish_at(t)
    }
}

} // verus!
