use vstd::prelude::*;
use std::collections::HashMap;
use crate::bytes::u32_at;
use crate::cursor::{ByteCursor, IoError};
use crate::pfs::block_header::BlockHeader;
use crate::pfs::blocks::{after, spec_entry_data, spec_entry_headers, read_headers};
use crate::pfs::crc::{FilenameCrc, spec_filename_crc};
use crate::pfs::directory::{Directory, spec_read_directory};
use crate::pfs::error::{Error, Failure, read_matches, io_error, corrupt};
use crate::pfs::footer::Footer;
use crate::pfs::header::Header;
use crate::pfs::index_entry::IndexEntry;
use crate::text::{unsupported_version_message, bad_index_entry_message, crc_mismatch_message, missing_entry_message};
use crate::pfs::blocks::{spec_entry_raw, read_blocks, blocks_bytes, BlockIterState, spec_next_block, ReaderState, spec_read_step,
    spec_reader_contents, spec_first_state, lemma_read_step_contents, load_next_block, entry_bytes,
    entry_read_fails, later_error, lemma_first_state_contents};
use crate::pfs::block::Block;
use crate::pfs::directory::names_of;
use crate::archive::write::{EqArchiveWriter, spec_new_header};
use crate::cursor::written;
use crate::sort::{sort_by_key, sort_seq_by_key, lemma_sort_map};

verus! {

broadcast use vstd::std_specs::hash::group_hash_axioms;

/// The most entries the index may hold.
pub const MAX_ENTRY_COUNT: u32 = 100000;

/// Information about a file stored in the archive.
#[derive(Debug, PartialEq, Eq, Structural)]
pub struct FileInfo {
    /// The offset of the file's first block.
    pub data_offset: u32,
    /// The total size of the file as compressed in the archive.
    pub compressed_size: u32,
    /// The total size of the file after decompression.
    pub uncompressed_size: u32,
    /// How many compressed blocks the file is stored in.
    pub block_count: u32,
}

/// Information about the archive as a whole.
#[derive(Debug)]
pub struct PfsInfo {
    /// The version word stored in the header.
    pub version: u32,
    /// The offset of the index section.
    pub index_offset: u32,
    /// The number of files in the archive.
    pub file_count: u32,
    /// The string stored in the (optional) footer, nearly always `STEVE`.
    pub footer_string: Option<[u8; 5]>,
    /// The timestamp stored in the (optional) footer.
    pub timestamp: Option<u32>,
}

/// What an opened archive consists of.
pub struct ArchiveModel {
    /// The archive's bytes.
    pub data: Seq<u8>,
    /// The file entries, keyed by filename CRC.
    pub index: Map<u32, IndexEntry>,
    /// The entry of the directory file.
    pub directory: IndexEntry,
    pub footer: Option<Footer>,
}

/// The `count` index entries stored from the start of `s`.
pub open spec fn spec_index_entries(s: Seq<u8>, count: nat) -> Seq<IndexEntry> {
    Seq::new(count, |i: int| IndexEntry::decode(s.skip(12 * i)))
}

proof fn lemma_entries_step(body: Seq<u8>, idx: nat)
    ensures
        spec_index_entries(body, idx + 1).drop_last() == spec_index_entries(body, idx),
        spec_index_entries(body, idx + 1).last() == IndexEntry::decode(body.skip((12 * idx) as int)),
{
    assert(spec_index_entries(body, idx + 1).drop_last() =~= spec_index_entries(body, idx));
}

proof fn lemma_index_step(es: Seq<IndexEntry>)
    requires
        es.len() > 0,
    ensures
        spec_index_map(es) == (if es.last().filename_crc == IndexEntry::DIRECTORY_CRC {
            spec_index_map(es.drop_last())
        } else {
            spec_index_map(es.drop_last()).insert(es.last().filename_crc, es.last())
        }),
        spec_directory_entry(es) == (match spec_directory_entry(es.drop_last()) {
            Some(d) => Some(d),
            None => if es.last().filename_crc == IndexEntry::DIRECTORY_CRC {
                Some(es.last())
            } else {
                None
            },
        }),
{
}

/// The file entries keyed by CRC, a later entry replacing an earlier one
/// with the same CRC; directory entries are left out.
pub open spec fn spec_index_map(entries: Seq<IndexEntry>) -> Map<u32, IndexEntry>
    decreases entries.len(),
{
    if entries.len() == 0 {
        Map::empty()
    } else {
        let m = spec_index_map(entries.drop_last());
        let e = entries.last();
        if e.filename_crc == IndexEntry::DIRECTORY_CRC {
            m
        } else {
            m.insert(e.filename_crc, e)
        }
    }
}

/// The first directory entry, if any.
pub open spec fn spec_directory_entry(entries: Seq<IndexEntry>) -> Option<IndexEntry>
    decreases entries.len(),
{
    if entries.len() == 0 {
        None
    } else {
        match spec_directory_entry(entries.drop_last()) {
            Some(d) => Some(d),
            None => if entries.last().filename_crc == IndexEntry::DIRECTORY_CRC {
                Some(entries.last())
            } else {
                None
            },
        }
    }
}

/// Opening the archive `data` whose header is read from `start` (the bytes
/// from the reader's position on; the whole archive when it is at 0): check
/// the header, read the index and the optional footer that follows it.
pub open spec fn spec_open(data: Seq<u8>, start: Seq<u8>) -> Result<ArchiveModel, Failure> {
    if start.len() < 12 {
        Err(Failure::Eof)
    } else {
        let h = Header::decode(start);
        if h.magic_number != Header::MAGIC_NUMBER {
            Err(Failure::Corrupt)
        } else if h.version != Header::VERSION {
            Err(Failure::Corrupt)
        } else {
            let s = after(data, h.index_offset as int);
            if s.len() < 4 {
                Err(Failure::Eof)
            } else {
                let count = u32_at(s, 0);
                if count > MAX_ENTRY_COUNT {
                    Err(Failure::Corrupt)
                } else if s.len() < 4 + 12 * count {
                    Err(Failure::Corrupt)
                } else {
                    let entries = spec_index_entries(s.skip(4), count as nat);
                    match spec_directory_entry(entries) {
                        None => Err(Failure::Corrupt),
                        Some(d) => {
                            let t = s.skip(4 + 12 * count);
                            Ok(
                                ArchiveModel {
                                    data,
                                    index: spec_index_map(entries),
                                    directory: d,
                                    footer: if t.len() >= 9 {
                                        Some(Footer::decode(t))
                                    } else {
                                        None
                                    },
                                },
                            )
                        },
                    }
                }
            }
        }
    }
}

/// The wrapping (modulo 2^32) sum of the compressed sizes.
pub open spec fn compressed_total(hs: Seq<BlockHeader>) -> u32
    decreases hs.len(),
{
    if hs.len() == 0 {
        0
    } else {
        ((compressed_total(hs.drop_last()) + hs.last().compressed_size) % 0x1_0000_0000) as u32
    }
}

/// What looking up `name` in the archive `m` gives: nothing when the index
/// holds no entry under its CRC, else the entry's contents or the failure
/// met reading them.
pub open spec fn spec_get(m: ArchiveModel, name: Seq<char>) -> Result<Option<Seq<u8>>, Failure> {
    let k = spec_filename_crc(name);
    if !m.index.contains_key(k) {
        Ok(None)
    } else {
        match spec_entry_data(m.data, m.index[k]) {
            Ok(d) => Ok(Some(d)),
            Err(f) => Err(f),
        }
    }
}

/// The information reported for the file that `e` indexes, given its block headers.
pub open spec fn spec_file_info(e: IndexEntry, hs: Seq<BlockHeader>) -> FileInfo {
    FileInfo {
        data_offset: e.data_offset,
        compressed_size: compressed_total(hs),
        uncompressed_size: e.uncompressed_size,
        block_count: hs.len() as u32,
    }
}

/// The file entries of an archive, each stored under its own CRC.
struct CrcIndex {
    map: HashMap<u32, IndexEntry>,
}

impl CrcIndex {
    #[verifier::type_invariant]
    spec fn wf(&self) -> bool {
        keys_match(self.map@)
    }
}

/// Reader of a PFS archive held in memory.
pub struct PfsReader {
    reader: ByteCursor,
    index: CrcIndex,
    directory: IndexEntry,
    footer: Option<Footer>,
}

impl PfsReader {
    pub closed spec fn model(&self) -> ArchiveModel {
        ArchiveModel {
            data: self.reader.data(),
            index: self.index.map@,
            directory: self.directory,
            footer: self.footer,
        }
    }


    /// Opens an archive: reads the header, the index and the optional footer.
    pub fn open(reader: ByteCursor) -> (r: Result<Self, Error>)
        ensures
            match spec_open(reader.data(), reader.rest()) {
                Ok(m) => r is Ok && r->Ok_0.model() == m,
                Err(f) => read_matches(r, f),
            },
    {
        from_reader(reader)
    }

    /// Reads the whole archive `data` into a reader.
    pub fn read(data: Vec<u8>) -> (r: Result<Self, Error>)
        ensures
            match spec_open(data@, data@) {
                Ok(m) => r is Ok && r->Ok_0.model() == m,
                Err(f) => read_matches(r, f),
            },
    {
        let reader = ByteCursor::new(data);
        proof {
            assert(reader.rest() =~= reader.data());
        }
        from_reader(reader)
    }

    /// The index entry of `filename`, if it is in the archive.
    fn get_index_entry(&self, filename: &str) -> (r: Result<Option<IndexEntry>, Error>)
        ensures
            ({
                let k = spec_filename_crc(filename@);
                if self.model().index.contains_key(k) {
                    r == Ok::<Option<IndexEntry>, Error>(Some(self.model().index[k]))
                } else {
                    r == Ok::<Option<IndexEntry>, Error>(None)
                }
            }),
    {
        proof {
            use_type_invariant(&self.index);
            reveal(keys_match);
        }
        let crc = FilenameCrc::new(filename);
        let entry = match self.index.map.get(&crc.0) {
            Some(e) => *e,
            None => return Ok(None),
        };
        if entry.filename_crc != crc.0 {
            return Err(Error::CorruptArchive(crc_mismatch_message(filename, crc.0, entry.filename_crc)));
        }
        Ok(Some(entry))
    }

    /// The contents of `filename`, or `None` if it is not in the archive.
    pub fn get(&mut self, filename: &str) -> (r: Result<Option<Vec<u8>>, Error>)
        ensures
            final(self).model() == old(self).model(),
            match spec_get(old(self).model(), filename@) {
                Ok(None) => r == Ok::<Option<Vec<u8>>, Error>(None),
                Ok(Some(d)) => r is Ok && r->Ok_0 is Some && r->Ok_0->Some_0@ == d,
                Err(_) => entry_read_fails(
                    r,
                    old(self).model().data,
                    old(self).model().index[spec_filename_crc(filename@)],
                ),
            },
    {
        let entry = match self.get_index_entry(filename) {
            Ok(Some(e)) => e,
            Ok(None) => return Ok(None),
            Err(e) => return Err(e),
        };
        match read_entry(&self.reader, &entry) {
            Ok(d) => Ok(Some(d)),
            Err(e) => Err(e),
        }
    }

    /// A reader over the contents of `filename`, or `None` if it is not in
    /// the archive. The file's first block is read and decompressed now, the
    /// others as the reading reaches them.
    pub fn get_reader(&mut self, filename: &str) -> (r: Result<Option<PfsFileReader>, Error>)
        ensures
            final(self).model() == old(self).model(),
            ({
                let m = old(self).model();
                let k = spec_filename_crc(filename@);
                if !m.index.contains_key(k) {
                    r is Ok && r->Ok_0 is None
                } else {
                    match spec_first_state(m.data, m.index[k]) {
                        Ok(st) => r is Ok && r->Ok_0 is Some && r->Ok_0->Some_0.state() == st,
                        Err(f) => read_matches(r, f),
                    }
                }
            }),
    {
        let entry = match self.get_index_entry(filename) {
            Ok(Some(e)) => e,
            Ok(None) => return Ok(None),
            Err(e) => return Err(e),
        };
        match open_file(&self.reader, &entry) {
            Ok(f) => Ok(Some(f)),
            Err(e) => Err(e),
        }
    }

    /// Information about `filename`, or `None` if it is not in the archive.
    pub fn info(&mut self, filename: &str) -> (r: Result<Option<FileInfo>, Error>)
        ensures
            final(self).model() == old(self).model(),
            ({
                let m = old(self).model();
                let k = spec_filename_crc(filename@);
                if !m.index.contains_key(k) {
                    r == Ok::<Option<FileInfo>, Error>(None)
                } else {
                    match spec_entry_headers(m.data, m.index[k]) {
                        Ok(hs) => r == Ok::<Option<FileInfo>, Error>(Some(spec_file_info(m.index[k], hs))),
                        Err(f) => read_matches(r, f),
                    }
                }
            }),
    {
        let entry = match self.get_index_entry(filename) {
            Ok(Some(e)) => e,
            Ok(None) => return Ok(None),
            Err(e) => return Err(e),
        };
        match file_info(&mut self.reader, &entry) {
            Ok(i) => Ok(Some(i)),
            Err(e) => Err(e),
        }
    }

    /// Information about the archive's directory file.
    pub fn directory_info(&mut self) -> (r: Result<FileInfo, Error>)
        ensures
            final(self).model() == old(self).model(),
            ({
                let m = old(self).model();
                match spec_entry_headers(m.data, m.directory) {
                    Ok(hs) => r == Ok::<FileInfo, Error>(spec_file_info(m.directory, hs)),
                    Err(f) => read_matches(r, f),
                }
            }),
    {
        let dir = self.directory;
        file_info(&mut self.reader, &dir)
    }

    /// The names of all files, as listed in the directory file.
    pub fn filenames(&mut self) -> (r: Result<Vec<String>, Error>)
        ensures
            final(self).model() == old(self).model(),
            ({
                let m = old(self).model();
                match spec_entry_data(m.data, m.directory) {
                    Err(_) => entry_read_fails(r, m.data, m.directory),
                    Ok(d) => match spec_read_directory(d) {
                        Ok((names, n)) => r is Ok && crate::pfs::directory::names_of(r->Ok_0@) == names,
                        Err(f) => read_matches(r, f),
                    },
                }
            }),
    {
        let dir = self.directory;
        let data = match read_entry(&self.reader, &dir) {
            Ok(d) => d,
            Err(e) => return Err(e),
        };
        let mut cursor = ByteCursor::new(data);
        proof {
            assert(cursor.rest() =~= cursor.data());
        }
        match Directory::read(&mut cursor) {
            Ok(d) => Ok(d.filenames),
            Err(e) => Err(e),
        }
    }

    /// Information about the archive as a whole: the header is read afresh.
    pub fn archive_info(&mut self) -> (r: Result<PfsInfo, Error>)
        ensures
            final(self).model() == old(self).model(),
            ({
                let m = old(self).model();
                if m.data.len() < 12 {
                    r == Err::<PfsInfo, Error>(Error::IO(IoError::UnexpectedEof))
                } else {
                    let h = Header::decode(m.data);
                    &&& r is Ok
                    &&& r->Ok_0.version == h.version
                    &&& r->Ok_0.index_offset == h.index_offset
                    &&& r->Ok_0.file_count == m.index.len() as u32
                    &&& r->Ok_0.footer_string == (match m.footer { Some(f) => Some(f.footer_string), None => None::<[u8; 5]> })
                    &&& r->Ok_0.timestamp == (match m.footer { Some(f) => Some(f.timestamp), None => None::<u32> })
                }
            }),
    {
        self.reader.seek(0);
        let header = match Header::read(&mut self.reader) {
            Ok(h) => h,
            Err(e) => return Err(e),
        };
        let footer_string = match self.footer {
            Some(f) => Some(f.footer_string),
            None => None,
        };
        let timestamp = match self.footer {
            Some(f) => Some(f.timestamp),
            None => None,
        };
        Ok(PfsInfo {
            version: header.version,
            index_offset: header.index_offset,
            file_count: self.index.map.len() as u32,
            footer_string,
            timestamp,
        })
    }
}

/// The keyed entries as plain values.
pub open spec fn keyed_views(k: Seq<(u32, (String, IndexEntry))>) -> Seq<(u32, (Seq<char>, IndexEntry))> {
    k.map_values(|p: (u32, (String, IndexEntry))| (p.0, (p.1.0@, p.1.1)))
}

impl PfsReader {
    /// Each listed name with its index entry, keyed by data offset; fails
    /// with `CorruptArchive` on a name the index does not hold.
    fn keyed_entries(&self, names: &Vec<String>) -> (r: Result<Vec<(u32, (String, IndexEntry))>, Error>)
        ensures
            r is Ok <==> forall|i: int| 0 <= i < names@.len() ==> #[trigger] self.model().index.contains_key(
                spec_filename_crc(names@[i]@),
            ),
            r is Ok ==> keyed_views(r->Ok_0@) == keyed_by_offset(names_of(names@), self.model().index),
            r is Err ==> r->Err_0 is CorruptArchive,
    {
        let ghost target = keyed_by_offset(names_of(names@), self.model().index);
        let mut keyed: Vec<(u32, (String, IndexEntry))> = Vec::new();
        let mut i: usize = 0;
        while i < names.len()
            invariant
                i <= names@.len(),
                target == keyed_by_offset(names_of(names@), self.model().index),
                keyed_views(keyed@) == target.take(i as int),
                forall|k: int| 0 <= k < i ==> #[trigger] self.model().index.contains_key(
                    spec_filename_crc(names@[k]@),
                ),
            decreases names@.len() - i,
        {
            let ghost prev = keyed@;
            let e = match self.get_index_entry(names[i].as_str()) {
                Ok(Some(e)) => e,
                Ok(None) => return Err(Error::CorruptArchive(missing_entry_message(names[i].as_str()))),
                Err(err) => return Err(err),
            };
            keyed.push((e.data_offset, (names[i].clone(), e)));
            i = i + 1;
            proof {
                assert(names_of(names@)[i - 1] == names@[i - 1]@);
                let k = spec_filename_crc(names@[i - 1]@);
                assert(self.model().index.contains_key(k));
                assert(e == self.model().index[k]);
                assert(keyed@ == prev.push(keyed@.last()));
                assert(keyed_views(keyed@).last() == target[i - 1]);
                assert(keyed_views(keyed@).drop_last() =~= keyed_views(prev));
                assert(keyed_views(keyed@) =~= target.take(i as int));
            }
        }
        proof {
            assert(target.take(i as int) =~= target);
        }
        Ok(keyed)
    }

    /// Starts a writer in `dest` that holds this archive's files: the
    /// header, then the stored blocks of each listed file copied unchanged in
    /// the order of their data offsets, then those of the directory file.
    /// The directory stays valid until the list of files changes, and the
    /// footer is kept.
    pub fn to_writer(&mut self, dest: ByteCursor) -> (r: Result<EqArchiveWriter, Error>)
        ensures
            final(self).model() == old(self).model(),
            r is Ok ==> ({
                let m = old(self).model();
                let w = r->Ok_0.model();
                &&& spec_entry_data(m.data, m.directory) matches Ok(d)
                &&& spec_read_directory(d) matches Ok((names, n))
                &&& entry_pairs(w.entries) == spec_copied_entries(names, m.index)
                &&& spec_raw_concat(
                    m.data,
                    entry_pairs(w.entries).map_values(|p: (Seq<char>, IndexEntry)| p.1).push(m.directory),
                ) matches Ok(raw)
                &&& w.data == written(dest.data(), dest.pos(), spec_new_header() + raw)
                &&& w.pos == dest.pos() + 12 + raw.len()
                &&& w.directory == Some(m.directory)
                &&& w.footer == m.footer
            }),
            ({
                let m = old(self).model();
                match spec_entry_data(m.data, m.directory) {
                    Err(_) => entry_read_fails(r, m.data, m.directory),
                    Ok(d) => match spec_read_directory(d) {
                        Err(f) => read_matches(r, f),
                        Ok((names, n)) => if forall|i: int| 0 <= i < names.len() ==> #[trigger] m.index.contains_key(
                            spec_filename_crc(names[i]),
                        ) {
                            spec_raw_concat(
                                m.data,
                                spec_copied_entries(names, m.index).map_values(|p: (Seq<char>, IndexEntry)| p.1).push(
                                    m.directory,
                                ),
                            ) matches Ok(raw) && dest.pos() + 12 + raw.len() <= usize::MAX ==> r is Ok
                        } else {
                            r matches Err(e) && e is CorruptArchive
                        },
                    },
                }
            }),
    {
        let names = match self.filenames() {
            Ok(n) => n,
            Err(e) => return Err(e),
        };
        proof {
            let nm = crate::pfs::directory::names_of(names@);
            assert forall|i: int| 0 <= i < names@.len() implies nm[i] == #[trigger] names@[i]@ by {}
            assert(nm.len() == names@.len());
        }
        let keyed = match self.keyed_entries(&names) {
            Ok(k) => k,
            Err(e) => {
                proof {
                    let nm = crate::pfs::directory::names_of(names@);
                    let i = choose|i: int| 0 <= i < names@.len() && !#[trigger] self.model().index.contains_key(
                        spec_filename_crc(names@[i]@),
                    );
                    assert(nm[i] == names@[i]@);
                }
                return Err(e);
            },
        };
        let sorted = sort_by_key(keyed);
        let ghost f = |t: (String, IndexEntry)| (t.0@, t.1);
        proof {
            lemma_sort_map(keyed@, f);
            assert(keyed_views(keyed@) =~= keyed@.map_values(|p: (u32, (String, IndexEntry))| (p.0, f(p.1))));
            let m = old(self).model();
            let es = sorted@.map_values(|p: (u32, (String, IndexEntry))| p.1.1);
            let cp = spec_copied_entries(crate::pfs::directory::names_of(names@), m.index);
            assert(sorted@.map_values(|p: (u32, (String, IndexEntry))| (p.0, f(p.1))) == sort_seq_by_key(
                keyed_by_offset(crate::pfs::directory::names_of(names@), m.index),
            ));
            assert(cp.map_values(|p: (Seq<char>, IndexEntry)| p.1) =~= es);
            let all = es.push(m.directory);
            assert(all.drop_last() =~= es);
            assert(all.last() == m.directory);
        }
        let mut writer = match EqArchiveWriter::create(dest) {
            Ok(w) => w,
            Err(e) => return Err(e),
        };
        proof {
            writer.lemma_fields();
            use_type_invariant(&writer);
        }
        let mut out = ByteCursor::new(Vec::new());
        std::mem::swap(&mut out, &mut writer.writer);
        let entries = match copy_files(&mut self.reader, &mut out, &sorted) {
            Ok(e) => e,
            Err(e) => return Err(e),
        };
        let dir = self.directory;
        let ghost mid = out.data();
        match copy_blocks(&mut self.reader, &mut out, &dir) {
            Ok(()) => {},
            Err(e) => return Err(e),
        }
        proof {
            let m = old(self).model();
            let es = sorted@.map_values(|p: (u32, (String, IndexEntry))| p.1.1);
            let raw1 = spec_raw_concat(m.data, es)->Ok_0;
            let raw2 = spec_entry_raw(m.data, dir)->Ok_0;
            assert(entry_pairs(entries@) =~= sorted@.map_values(|p: (u32, (String, IndexEntry))| (p.0, f(p.1))).map_values(
                |p: (u32, (Seq<char>, IndexEntry))| p.1,
            ));
            assert(entry_pairs(entries@).map_values(|p: (Seq<char>, IndexEntry)| p.1) =~= es);
            assert(es.push(dir).drop_last() =~= es);
            crate::cursor::lemma_written_twice(dest.data(), dest.pos(), spec_new_header(), raw1);
            crate::cursor::lemma_written_twice(dest.data(), dest.pos(), spec_new_header() + raw1, raw2);
            assert(spec_new_header() + raw1 + raw2 =~= spec_new_header() + (raw1 + raw2));
        }
        let writer = EqArchiveWriter { writer: out, entries, directory: Some(dir), footer: self.footer };
        proof {
            writer.lemma_fields();
        }
        Ok(writer)
    }
}

/// Copies the blocks of each of `files` in turn to the writer's position,
/// returning the files' names and entries.
fn copy_files(reader: &mut ByteCursor, writer: &mut ByteCursor, files: &Vec<(u32, (String, IndexEntry))>) -> (r: Result<Vec<(String, IndexEntry)>, Error>)
    requires
        old(writer).pos() <= old(writer).data().len(),
    ensures
        final(reader).data() == old(reader).data(),
        final(writer).pos() <= final(writer).data().len(),
        r is Ok ==> ({
            let es = files@.map_values(|p: (u32, (String, IndexEntry))| p.1.1);
            &&& spec_raw_concat(old(reader).data(), es) matches Ok(raw)
            &&& final(writer).data() == written(old(writer).data(), old(writer).pos(), raw)
            &&& final(writer).pos() == old(writer).pos() + raw.len()
            &&& r->Ok_0@ == files@.map_values(|p: (u32, (String, IndexEntry))| p.1)
        }),
        spec_raw_concat(old(reader).data(), files@.map_values(|p: (u32, (String, IndexEntry))| p.1.1)) matches Ok(raw)
            && old(writer).pos() + raw.len() <= usize::MAX ==> r is Ok,
{
    let ghost es = files@.map_values(|p: (u32, (String, IndexEntry))| p.1.1);
    let ghost data0 = writer.data();
    let ghost pos0 = writer.pos();
    let ghost mut acc: Seq<u8> = Seq::empty();
    let mut out: Vec<(String, IndexEntry)> = Vec::new();
    proof {
        assert(written(data0, pos0, acc) =~= data0);
        assert(es.take(0) =~= Seq::<IndexEntry>::empty());
    }
    let mut j: usize = 0;
    while j < files.len()
        invariant
            j <= files@.len(),
            es == files@.map_values(|p: (u32, (String, IndexEntry))| p.1.1),
            data0 == old(writer).data(),
            pos0 == old(writer).pos(),
            pos0 <= data0.len(),
            reader.data() == old(reader).data(),
            writer.pos() <= writer.data().len(),
            spec_raw_concat(old(reader).data(), es.take(j as int)) == Ok::<Seq<u8>, Failure>(acc),
            writer.data() == written(data0, pos0, acc),
            writer.pos() == pos0 + acc.len(),
            out@ == files@.map_values(|p: (u32, (String, IndexEntry))| p.1).take(j as int),
        decreases files@.len() - j,
    {
        let e = files[j].1.1;
        proof {
            assert(es[j as int] == e);
            if spec_raw_concat(old(reader).data(), es) is Ok {
                lemma_raw_concat_prefix(old(reader).data(), es, j + 1);
                assert(es.take(j + 1).drop_last() =~= es.take(j as int));
                assert(es.take(j + 1).last() == e);
            }
        }
        let ghost before = writer.data();
        match copy_blocks(reader, writer, &e) {
            Ok(()) => {},
            Err(err) => return Err(err),
        }
        proof {
            let raw = spec_entry_raw(old(reader).data(), e)->Ok_0;
            crate::cursor::lemma_written_twice(data0, pos0, acc, raw);
            assert(es.take(j + 1).drop_last() =~= es.take(j as int));
            assert(es.take(j + 1).last() == e);
            acc = acc + raw;
        }
        out.push((files[j].1.0.clone(), e));
        j = j + 1;
        proof {
            assert(out@ =~= files@.map_values(|p: (u32, (String, IndexEntry))| p.1).take(j as int));
        }
    }
    proof {
        assert(es.take(j as int) =~= es);
        assert(files@.map_values(|p: (u32, (String, IndexEntry))| p.1).take(j as int) =~= files@.map_values(|p: (u32, (String, IndexEntry))| p.1));
    }
    Ok(out)
}

/// Copies the stored blocks of the file that `entry` indexes, unchanged,
/// to the writer's position.
fn copy_blocks(reader: &mut ByteCursor, writer: &mut ByteCursor, entry: &IndexEntry) -> (r: Result<(), Error>)
    requires
        old(writer).pos() <= old(writer).data().len(),
    ensures
        final(reader).data() == old(reader).data(),
        final(writer).pos() <= final(writer).data().len(),
        r is Ok ==> (spec_entry_raw(old(reader).data(), *entry) matches Ok(raw)
            && final(writer).data() == written(old(writer).data(), old(writer).pos(), raw)
            && final(writer).pos() == old(writer).pos() + raw.len()),
        match spec_entry_raw(old(reader).data(), *entry) {
            Err(f) => read_matches(r, f),
            Ok(raw) => old(writer).pos() + raw.len() <= usize::MAX ==> r is Ok,
        },
{
    let blocks = match read_blocks(reader, entry) {
        Ok(b) => b,
        Err(e) => return Err(e),
    };
    let ghost data0 = writer.data();
    let ghost pos0 = writer.pos();
    let mut i: usize = 0;
    proof {
        assert(blocks@.take(0) =~= Seq::<Block>::empty());
        assert(written(data0, pos0, Seq::<u8>::empty()) =~= data0);
    }
    while i < blocks.len()
        invariant
            i <= blocks@.len(),
            pos0 <= data0.len(),
            data0 == old(writer).data(),
            pos0 == old(writer).pos(),
            reader.data() == old(reader).data(),
            blocks_bytes(blocks@) == spec_entry_raw(old(reader).data(), *entry)->Ok_0,
            spec_entry_raw(old(reader).data(), *entry) is Ok,
            writer.pos() <= writer.data().len(),
            writer.data() == written(data0, pos0, blocks_bytes(blocks@.take(i as int))),
            writer.pos() == pos0 + blocks_bytes(blocks@.take(i as int)).len(),
        decreases blocks@.len() - i,
    {
        let b = blocks[i].to_bytes();
        proof {
            assert(blocks@.take(i + 1).drop_last() =~= blocks@.take(i as int));
            lemma_blocks_bytes_prefix(blocks@, i + 1);
        }
        match writer.write_all(b.as_slice()) {
            Ok(()) => {},
            Err(e) => return Err(io_error(e)),
        }
        proof {
            crate::cursor::lemma_written_twice(data0, pos0, blocks_bytes(blocks@.take(i as int)), b@);
            assert(blocks@.take(i + 1).drop_last() =~= blocks@.take(i as int));
        }
        i = i + 1;
    }
    proof {
        assert(blocks@.take(i as int) =~= blocks@);
    }
    Ok(())
}

/// The information reported for the file that `entry` indexes.
fn file_info(reader: &mut ByteCursor, entry: &IndexEntry) -> (r: Result<FileInfo, Error>)
    ensures
        final(reader).data() == old(reader).data(),
        match spec_entry_headers(old(reader).data(), *entry) {
            Ok(hs) => r == Ok::<FileInfo, Error>(spec_file_info(*entry, hs)),
            Err(f) => read_matches(r, f),
        },
{
    let headers = match read_headers(reader, entry) {
        Ok(h) => h,
        Err(e) => return Err(e),
    };
    let mut total: u32 = 0;
    let mut i: usize = 0;
    while i < headers.len()
        invariant
            i <= headers@.len(),
            total == compressed_total(headers@.take(i as int)),
        decreases headers@.len() - i,
    {
        total = ((total as u64 + headers[i].compressed_size as u64) % 0x1_0000_0000) as u32;
        i = i + 1;
        proof {
            assert(headers@.take(i as int).drop_last() =~= headers@.take(i - 1));
        }
    }
    proof {
        assert(headers@.take(i as int) =~= headers@);
    }
    Ok(FileInfo {
        data_offset: entry.data_offset,
        compressed_size: total,
        uncompressed_size: entry.uncompressed_size,
        block_count: headers.len() as u32,
    })
}

/// The names with their index entries, keyed by data offset.
pub open spec fn keyed_by_offset(names: Seq<Seq<char>>, index: Map<u32, IndexEntry>) -> Seq<
    (u32, (Seq<char>, IndexEntry)),
> {
    names.map_values(
        |n: Seq<char>| (index[spec_filename_crc(n)].data_offset, (n, index[spec_filename_crc(n)])),
    )
}

/// The named entries in the order of their data: stably sorted by offset.
pub open spec fn spec_copied_entries(names: Seq<Seq<char>>, index: Map<u32, IndexEntry>) -> Seq<
    (Seq<char>, IndexEntry),
> {
    sort_seq_by_key(keyed_by_offset(names, index)).map_values(|p: (u32, (Seq<char>, IndexEntry))| p.1)
}

/// The stored blocks of each entry in turn, concatenated; or the first failure.
pub open spec fn spec_raw_concat(data: Seq<u8>, es: Seq<IndexEntry>) -> Result<Seq<u8>, Failure>
    decreases es.len(),
{
    if es.len() == 0 {
        Ok(Seq::empty())
    } else {
        match spec_raw_concat(data, es.drop_last()) {
            Err(f) => Err(f),
            Ok(prefix) => match spec_entry_raw(data, es.last()) {
                Err(f) => Err(f),
                Ok(raw) => Ok(prefix + raw),
            },
        }
    }
}

/// The stored blocks of the first entries are there when those of all are,
/// and take no more room.
proof fn lemma_raw_concat_prefix(data: Seq<u8>, es: Seq<IndexEntry>, j: int)
    requires
        0 <= j <= es.len(),
        spec_raw_concat(data, es) is Ok,
    ensures
        spec_raw_concat(data, es.take(j)) is Ok,
        spec_raw_concat(data, es.take(j))->Ok_0.len() <= spec_raw_concat(data, es)->Ok_0.len(),
    decreases es.len(),
{
    if j == es.len() {
        assert(es.take(j) =~= es);
    } else {
        lemma_raw_concat_prefix(data, es.drop_last(), j);
        assert(es.drop_last().take(j) =~= es.take(j));
    }
}

/// The first blocks take no more room than all of them.
proof fn lemma_blocks_bytes_prefix(blocks: Seq<Block>, i: int)
    requires
        0 <= i <= blocks.len(),
    ensures
        blocks_bytes(blocks.take(i)).len() <= blocks_bytes(blocks).len(),
    decreases blocks.len(),
{
    if i == blocks.len() {
        assert(blocks.take(i) =~= blocks);
    } else {
        lemma_blocks_bytes_prefix(blocks.drop_last(), i);
        assert(blocks.drop_last().take(i) =~= blocks.take(i));
    }
}

/// The names and entries of a writer's files, as plain values.
pub open spec fn entry_pairs(entries: Seq<(String, IndexEntry)>) -> Seq<(Seq<char>, IndexEntry)> {
    entries.map_values(|e: (String, IndexEntry)| (e.0@, e.1))
}

/// Every entry of the map is stored under its own CRC.
pub closed spec fn keys_match(m: Map<u32, IndexEntry>) -> bool {
    forall|k: u32| #[trigger] m.contains_key(k) ==> m[k].filename_crc == k
}

/// Files a freshly read index entry: the first directory entry becomes the
/// directory, every other entry goes into the index under its CRC.
fn add_entry(index: &mut HashMap<u32, IndexEntry>, directory: &mut Option<IndexEntry>, entry: IndexEntry)
    requires
        keys_match(old(index)@),
    ensures
        keys_match(final(index)@),
        entry.filename_crc == IndexEntry::DIRECTORY_CRC ==> final(index)@ == old(index)@
            && *final(directory) == (match *old(directory) {
                Some(d) => Some(d),
                None => Some(entry),
            }),
        entry.filename_crc != IndexEntry::DIRECTORY_CRC ==> final(index)@ == old(index)@.insert(
            entry.filename_crc,
            entry,
        ) && *final(directory) == *old(directory),
{
    if entry.filename_crc == IndexEntry::DIRECTORY_CRC {
        if directory.is_none() {
            *directory = Some(entry);
        }
    } else {
        index.insert(entry.filename_crc, entry);
    }
    proof {
        reveal(keys_match);
    }
}

/// Opens an archive: reads the header, the index and the optional footer.
#[verifier::rlimit(40)]
fn from_reader(input: ByteCursor) -> (r: Result<PfsReader, Error>)
    ensures
        match spec_open(input.data(), input.rest()) {
            Ok(m) => r is Ok && r->Ok_0.model() == m,
            Err(f) => read_matches(r, f),
        },
{
    let ghost data = input.data();
    let ghost start0 = input.rest();
    let mut reader = input;
    let header = match Header::read(&mut reader) {
        Ok(h) => h,
        Err(e) => return Err(e),
    };
    if header.magic_number != Header::MAGIC_NUMBER {
        return Err(corrupt("header: magic number did not match"));
    }
    if header.version != Header::VERSION {
        return Err(Error::CorruptArchive(unsupported_version_message(header.version)));
    }
    reader.seek(header.index_offset as usize);
    let ghost s = reader.rest();
    assert(s == after(data, header.index_offset as int));
    let entry_count = match reader.read_u32() {
        Ok(c) => c,
        Err(e) => return Err(io_error(e)),
    };
    if entry_count > MAX_ENTRY_COUNT {
        return Err(corrupt("exceeds max file entry count of 100000"));
    }
    let ghost body = s.skip(4);
    let mut index: HashMap<u32, IndexEntry> = HashMap::new();
    proof {
        reveal(keys_match);
    }
    let mut directory: Option<IndexEntry> = None;
    let mut idx: u32 = 0;
    while idx < entry_count
        invariant
            idx <= entry_count,
            entry_count <= MAX_ENTRY_COUNT,
            reader.data() == data,
            body == s.skip(4),
            entry_count == u32_at(s, 0),
            s.len() >= 4,
            reader.rest() == body.skip(12 * idx),
            12 * idx <= body.len(),
            index@ == spec_index_map(spec_index_entries(body, idx as nat)),
            directory == spec_directory_entry(spec_index_entries(body, idx as nat)),
            keys_match(index@),
            start0.len() >= 12,
            Header::decode(start0).magic_number == Header::MAGIC_NUMBER,
            Header::decode(start0).version == Header::VERSION,
            s == after(data, Header::decode(start0).index_offset as int),
            data == input.data(),
            start0 == input.rest(),
        decreases entry_count - idx,
    {
        let ghost prev = reader.rest();
        let entry = match IndexEntry::read(&mut reader) {
            Ok(e) => e,
            Err(_) => {
                proof {
                    assert(prev.len() < 12);
                    assert(body.len() < 12 * (idx + 1));
                    assert(s.len() < 4 + 12 * entry_count);
                    assert(spec_open(data, start0) == Err::<ArchiveModel, Failure>(Failure::Corrupt));
                }
                return Err(Error::CorruptArchive(bad_index_entry_message(idx)));
            },
        };
        proof {
            lemma_entries_step(body, idx as nat);
            assert(prev.len() >= 12);
            assert(reader.rest() =~= prev.skip(12));
            assert(reader.rest() =~= body.skip(12 * (idx + 1)));
        }
        add_entry(&mut index, &mut directory, entry);
        proof {
            lemma_index_step(spec_index_entries(body, (idx + 1) as nat));
        }
        idx = idx + 1;
    }
    let directory = match directory {
        Some(d) => d,
        None => return Err(corrupt("failed to find directory entry in index")),
    };
    let ghost t = reader.rest();
    proof {
        assert(t =~= s.skip(4 + 12 * entry_count));
        assert(s.len() >= 4 + 12 * entry_count);
    }
    // Any error while reading the footer is taken to mean there is no footer.
    let footer = match Footer::read(&mut reader) {
        Ok(f) => Some(f),
        Err(_) => None,
    };
    Ok(PfsReader { reader, index: CrcIndex { map: index }, directory, footer })
}

/// The contents of one archived file, read block by block: a block is read
/// and decompressed when the reading reaches it.
pub struct PfsFileReader {
    /// The decompressed current block.
    curr: ByteCursor,
    /// The stored bytes, at the next block.
    blocks: ByteCursor,
    state: BlockIterState,
}

impl PfsFileReader {
    #[verifier::type_invariant]
    spec fn wf(&self) -> bool {
        self.state.inv()
    }

    /// Where the reader stands: the rest of the current block, the stored
    /// bytes from the next block on, the uncompressed bytes and the blocks
    /// still to come.
    pub closed spec fn state(&self) -> ReaderState {
        (self.curr.rest(), self.blocks.rest(), self.state.remaining(), self.state.budget())
    }

    /// Reads up to `n` bytes. When `n > 0` and bytes of the current block
    /// are left, they are read; otherwise, unless the file is done, the next
    /// block is read and decompressed in place of the current one, and the
    /// read starts again on it. An empty result with `n > 0` marks the end.
    pub fn read(&mut self, n: usize) -> (r: Result<Vec<u8>, Error>)
        ensures
            match spec_read_step(old(self).state(), n as nat) {
                Ok((b, st)) => r is Ok && r->Ok_0@ == b && final(self).state() == st,
                Err(f) => read_matches(r, f),
            },
    {
        proof {
            use_type_invariant(&*self);
        }
        let mut curr = ByteCursor::new(Vec::new());
        let mut blocks = ByteCursor::new(Vec::new());
        let mut state = BlockIterState::new(&IndexEntry { filename_crc: 0, data_offset: 0, uncompressed_size: 0 });
        std::mem::swap(&mut curr, &mut self.curr);
        std::mem::swap(&mut blocks, &mut self.blocks);
        std::mem::swap(&mut state, &mut self.state);
        let r = read_step(&mut curr, &mut blocks, &mut state, n);
        self.curr = curr;
        self.blocks = blocks;
        self.state = state;
        r
    }

    /// Reads everything that is left.
    pub fn read_to_end(&mut self) -> (r: Result<Vec<u8>, Error>)
        ensures
            match spec_reader_contents(old(self).state()) {
                Ok(c) => r is Ok && r->Ok_0@ == c,
                Err(f) => read_matches(r, f),
            },
    {
        let mut out: Vec<u8> = Vec::new();
        loop
            invariant
                spec_reader_contents(old(self).state()) == match spec_reader_contents(self.state()) {
                    Ok(c) => Ok::<Seq<u8>, Failure>(out@ + c),
                    Err(f) => Err(f),
                },
            decreases self.state().3, self.state().0.len(),
        {
            let ghost st = self.state();
            proof {
                lemma_read_step_contents(st, 8192);
            }
            let chunk = match self.read(8192) {
                Ok(c) => c,
                Err(e) => return Err(e),
            };
            if chunk.len() == 0 {
                proof {
                    assert(out@ + Seq::<u8>::empty() =~= out@);
                }
                return Ok(out);
            }
            let ghost before = out@;
            let mut i: usize = 0;
            while i < chunk.len()
                invariant
                    i <= chunk@.len(),
                    out@ == before + chunk@.take(i as int),
                decreases chunk@.len() - i,
            {
                out.push(chunk[i]);
                i = i + 1;
                assert(out@ =~= before + chunk@.take(i as int));
            }
            proof {
                assert(chunk@.take(i as int) =~= chunk@);
                if let Ok(c) = spec_reader_contents(self.state()) {
                    assert(before + (chunk@ + c) =~= out@ + c);
                }
            }
        }
    }
}

/// A reader over the file that `entry` indexes in the archive `reader`
/// holds, with its first block read and decompressed.
fn open_file(reader: &ByteCursor, entry: &IndexEntry) -> (r: Result<PfsFileReader, Error>)
    ensures
        match spec_first_state(reader.data(), *entry) {
            Ok(st) => r is Ok && r->Ok_0.state() == st,
            Err(f) => read_matches(r, f),
        },
{
    let ghost data = reader.data();
    // The reader gets its own copy of the stored bytes from the file's
    // first block on.
    let all = reader.get_ref();
    let off = entry.data_offset as usize;
    let mut raw: Vec<u8> = Vec::new();
    if off <= all.len() {
        let (_, tail) = all.as_slice().split_at(off);
        crate::wld::parse::append_bytes(&mut raw, tail);
    }
    let mut blocks = ByteCursor::new(raw);
    proof {
        assert(blocks.rest() =~= entry_bytes(data, *entry));
    }
    let mut state = BlockIterState::new(&entry);
    let curr = if entry.uncompressed_size == 0 {
        ByteCursor::new(Vec::new())
    } else {
        match load_next_block(&mut blocks, &mut state) {
            Ok(Some(d)) => ByteCursor::new(d),
            Ok(None) => ByteCursor::new(Vec::new()),
            Err(e) => return Err(e),
        }
    };
    proof {
        assert(curr.rest() =~= curr.data());
    }
    Ok(PfsFileReader { curr, blocks, state })
}

/// The contents of the file that `entry` indexes, read through a file
/// reader: a failure on the first block is returned as it is, one on a
/// later block as an I/O error.
fn read_entry(reader: &ByteCursor, entry: &IndexEntry) -> (r: Result<Vec<u8>, Error>)
    ensures
        match spec_entry_data(reader.data(), *entry) {
            Ok(d) => r is Ok && r->Ok_0@ == d,
            Err(_) => entry_read_fails(r, reader.data(), *entry),
        },
{
    proof {
        lemma_first_state_contents(reader.data(), *entry);
    }
    let mut file = match open_file(reader, entry) {
        Ok(f) => f,
        Err(e) => return Err(e),
    };
    match file.read_to_end() {
        Ok(d) => Ok(d),
        Err(e) => Err(later_error(e)),
    }
}

/// One read of up to `n` bytes over the parts of a file reader.
fn read_step(curr: &mut ByteCursor, blocks: &mut ByteCursor, state: &mut BlockIterState, n: usize) -> (r: Result<Vec<u8>, Error>)
    requires
        old(state).inv(),
    ensures
        final(state).inv(),
        match spec_read_step((old(curr).rest(), old(blocks).rest(), old(state).remaining(), old(state).budget()), n as nat) {
            Ok((b, st)) => r is Ok && r->Ok_0@ == b && (final(curr).rest(), final(blocks).rest(), final(state).remaining(), final(state).budget()) == st,
            Err(f) => read_matches(r, f),
        },
{
    let ghost goal = spec_read_step((curr.rest(), blocks.rest(), state.remaining(), state.budget()), n as nat);
    loop
        invariant
            state.inv(),
            goal == spec_read_step((curr.rest(), blocks.rest(), state.remaining(), state.budget()), n as nat),
            goal == spec_read_step((old(curr).rest(), old(blocks).rest(), old(state).remaining(), old(state).budget()), n as nat),
        decreases state.budget(),
    {
        let pos = curr.position();
        let len = curr.get_ref().len();
        let avail = if pos <= len { len - pos } else { 0 };
        let ghost st = (curr.rest(), blocks.rest(), state.remaining(), state.budget());
        assert(avail == st.0.len());
        if n > 0 && avail > 0 {
            let k = if n <= avail { n } else { avail };
            let ghost r0 = curr.rest();
            let v = match curr.read_exact(k) {
                Ok(v) => v,
                Err(e) => return Err(io_error(e)),
            };
            proof {
                assert(curr.rest() =~= r0.skip(k as int));
                assert(goal == Ok::<(Seq<u8>, ReaderState), Failure>((r0.take(k as int), (r0.skip(k as int), st.1, st.2, st.3))));
            }
            return Ok(v);
        }
        match load_next_block(blocks, state) {
            Ok(None) => {
                let empty: Vec<u8> = Vec::new();
                proof {
                    assert(goal == Ok::<(Seq<u8>, ReaderState), Failure>((Seq::empty(), st)));
                    assert(empty@ =~= Seq::<u8>::empty());
                }
                return Ok(empty);
            },
            Err(e) => {
                proof {
                    assert(st.2 > 0);
                    assert(spec_next_block(st.1, st.2, st.3) is Err);
                    assert(goal == Err::<(Seq<u8>, ReaderState), Failure>(spec_next_block(st.1, st.2, st.3)->Err_0));
                }
                return Err(e);
            },
            Ok(Some(d)) => {
                *curr = ByteCursor::new(d);
                proof {
                    assert(curr.rest() =~= d@);
                    let next = spec_next_block(st.1, st.2, st.3)->Ok_0;
                    assert(next.3 < st.3);
                    assert(goal == spec_read_step(next, n as nat));
                }
            },
        }
    }
}

} // verus!
