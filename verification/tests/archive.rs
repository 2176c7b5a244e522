use libeq::archive::{Archive, EqArchiveReader, EqArchiveWriter, FileInfo, FilenameCrc};
use libeq::cursor::ByteCursor;
use libeq::pfs::directory::Directory;

#[test]
fn crud() {
    let test_files = [
        ("test-file0", vec![0xde, 0xad, 0xbe, 0xef]),
        ("test-file1", vec![0xca, 0xfe, 0xba, 0xbe]),
    ];

    // Create
    let bytes = Vec::new();
    let mut writer = EqArchiveWriter::create(ByteCursor::new(bytes)).unwrap();
    for f in &test_files {
        writer.insert(f.0, ByteCursor::new(f.1.clone())).unwrap();
    }
    let filenames = writer.filenames();

    assert_eq!(filenames.len(), test_files.len());
    for t in &test_files {
        assert!(filenames.iter().any(|f| t.0 == f));
    }
    let bytes = writer.finish().unwrap().into_inner();

    // Read
    let mut reader = EqArchiveReader::open(ByteCursor::new(bytes)).unwrap();

    assert_eq!(filenames.len(), test_files.len());
    for t in &test_files {
        assert!(filenames.iter().any(|f| t.0 == f));
        assert_eq!(&reader.get(t.0).unwrap().unwrap(), &t.1);
    }

    let more_test_files = [("test-file2", vec![0x13u8, 0x37, 0xfe, 0xe7])];

    // Update
    let out = Vec::new();
    let mut editor = reader.to_writer(ByteCursor::new(out)).unwrap();
    editor
        .insert(more_test_files[0].0, ByteCursor::new(more_test_files[0].1.clone()))
        .unwrap();
    assert_eq!(editor.filenames().len(), test_files.len() + 1);
    for t in &test_files {
        assert!(editor.filenames().iter().any(|f| t.0 == f));
    }
    for t in &more_test_files {
        assert!(editor.filenames().iter().any(|f| t.0 == f));
    }

    // Delete
    editor.remove(more_test_files[0].0);
    assert_eq!(editor.filenames().len(), test_files.len());
    for t in &test_files {
        assert!(editor.filenames().iter().any(|f| t.0 == f));
    }
}

#[test]
fn info() {
    let test_files = [
        ("test-file0", vec![0xde, 0xad, 0xbe, 0xef]),
        ("test-file1", vec![0xca, 0xfe, 0xba, 0xbe]),
    ];
    let bytes = Vec::new();
    let mut writer = EqArchiveWriter::create(ByteCursor::new(bytes)).unwrap();
    for f in &test_files {
        writer.insert(f.0, ByteCursor::new(f.1.clone())).unwrap();
    }
    let bytes = writer.finish().unwrap().into_inner();

    let mut reader = EqArchiveReader::open(ByteCursor::new(bytes)).unwrap();
    assert_eq!(
        reader.info("test-file0").unwrap().unwrap(),
        FileInfo {
            data_offset: 12,
            compressed_size: 12,
            uncompressed_size: 4,
            block_count: 1
        }
    );
    assert_eq!(
        reader.info("test-file1").unwrap().unwrap(),
        FileInfo {
            data_offset: 32,
            compressed_size: 12,
            uncompressed_size: 4,
            block_count: 1
        }
    );
    assert_eq!(reader.info("missing-file").unwrap(), None);
}

fn build(files: &[(&str, Vec<u8>)]) -> Vec<u8> {
    let mut writer = EqArchiveWriter::create(ByteCursor::new(Vec::new())).unwrap();
    for f in files {
        writer.insert(f.0, ByteCursor::new(f.1.clone())).unwrap();
    }
    writer.finish().unwrap().into_inner()
}

#[test]
fn written_files_read_back_across_blocks() {
    // 20000 bytes take three blocks of at most 8 KiB.
    let big: Vec<u8> = (0..20000u32).map(|i| (i * 7 % 251) as u8).collect();
    let bytes = build(&[("big.bin", big.clone()), ("empty.txt", vec![])]);
    let mut reader = EqArchiveReader::open(ByteCursor::new(bytes)).unwrap();
    assert_eq!(reader.get("big.bin").unwrap().unwrap(), big);
    assert_eq!(reader.get("empty.txt").unwrap().unwrap(), Vec::<u8>::new());
    assert_eq!(reader.info("big.bin").unwrap().unwrap().block_count, 3);
    assert_eq!(reader.get("nothing").unwrap(), None);
}

#[test]
fn inserting_a_name_again_replaces_the_file() {
    let mut writer = EqArchiveWriter::create(ByteCursor::new(Vec::new())).unwrap();
    assert_eq!(writer.insert("a", ByteCursor::new(vec![1, 2])).unwrap(), false);
    assert_eq!(writer.insert("a", ByteCursor::new(vec![3])).unwrap(), true);
    assert_eq!(writer.filenames(), vec!["a".to_string()]);
    let bytes = writer.finish().unwrap().into_inner();
    let mut reader = EqArchiveReader::open(ByteCursor::new(bytes)).unwrap();
    assert_eq!(reader.get("a").unwrap().unwrap(), vec![3]);
}

#[test]
fn the_directory_lists_names_by_crc() {
    let bytes = build(&[("one", vec![1]), ("two", vec![2]), ("three", vec![3])]);
    let mut reader = EqArchiveReader::open(ByteCursor::new(bytes)).unwrap();
    let names = reader.filenames().unwrap();
    let crcs: Vec<u32> = names.iter().map(|n| FilenameCrc::new(n).raw()).collect();
    let mut sorted = crcs.clone();
    sorted.sort();
    assert_eq!(crcs, sorted);
    assert_eq!(names.len(), 3);
    assert_eq!(reader.archive_info().unwrap().file_count, 3);
    assert_eq!(reader.archive_info().unwrap().footer_string, Some(*b"STEVE"));
}

#[test]
fn an_unchanged_copy_is_the_same_archive() {
    let bytes = build(&[("x", vec![9, 9, 9]), ("y", vec![8])]);
    let mut reader = EqArchiveReader::open(ByteCursor::new(bytes.clone())).unwrap();
    let copy = reader.to_writer(ByteCursor::new(Vec::new())).unwrap();
    let again = copy.finish().unwrap().into_inner();
    assert_eq!(again, bytes);
}

#[test]
fn removing_a_missing_file_reports_false() {
    let mut writer = EqArchiveWriter::create(ByteCursor::new(Vec::new())).unwrap();
    writer.insert("a", ByteCursor::new(vec![1])).unwrap();
    assert!(!writer.remove("b"));
    assert!(writer.remove("a"));
    assert!(writer.filenames().is_empty());
}

#[test]
fn finishing_at_a_time_stamps_the_footer() {
    let mut writer = EqArchiveWriter::create(ByteCursor::new(Vec::new())).unwrap();
    writer.insert("a", ByteCursor::new(vec![1])).unwrap();
    let bytes = writer.finish_at(0x01020304).unwrap().into_inner();
    let n = bytes.len();
    assert_eq!(&bytes[n - 9..], &[b'S', b'T', b'E', b'V', b'E', 1, 2, 3, 4]);
    let mut reader = EqArchiveReader::open(ByteCursor::new(bytes)).unwrap();
    assert_eq!(reader.archive_info().unwrap().timestamp, Some(0x01020304));
}

#[test]
fn bad_headers_are_refused() {
    assert!(EqArchiveReader::open(ByteCursor::new(vec![0; 5])).is_err());
    let mut bytes = build(&[("a", vec![1])]);
    bytes[4] = b'X';
    assert!(EqArchiveReader::open(ByteCursor::new(bytes.clone())).is_err());
    bytes[4] = b'P';
    bytes[8] = 1;
    assert!(EqArchiveReader::open(ByteCursor::new(bytes)).is_err());
}

#[test]
fn archive_parse_and_to_bytes_round_trip() {
    let bytes = build(&[("a", vec![1, 2, 3]), ("b", vec![4])]);
    let (rest, archive) = Archive::parse(&bytes).unwrap();
    assert!(rest.is_empty());
    assert_eq!(archive.index_entries.len(), 3);
    assert_eq!(archive.blocks.len(), 3);
    assert_eq!(archive.blocks.keys().next(), Some(&12));
    assert_eq!(archive.footer.as_ref().unwrap().footer_string, b"STEVE".to_vec());
    assert_eq!(archive.to_bytes(), bytes);
    assert!(Archive::parse(&bytes[..10]).is_none());
}

#[test]
fn bytes_after_the_index_never_stop_an_archive_opening() {
    let bytes = build(&[("a", vec![1, 2, 3])]);
    let bare = bytes[..bytes.len() - 9].to_vec();
    for extra in [vec![], vec![1, 2, 3], b"STEVE\x00\x00\x00\x07".to_vec()] {
        let mut data = bare.clone();
        data.extend_from_slice(&extra);
        let mut reader = EqArchiveReader::open(ByteCursor::new(data)).unwrap();
        assert_eq!(reader.get("a").unwrap().unwrap(), vec![1, 2, 3]);
        let info = reader.archive_info().unwrap();
        if extra.len() >= 9 {
            assert_eq!(info.footer_string, Some(*b"STEVE"));
            assert_eq!(info.timestamp, Some(7));
        } else {
            assert_eq!(info.footer_string, None);
            assert_eq!(info.timestamp, None);
        }
    }
}

#[test]
fn a_writer_lists_each_name_once() {
    let mut writer = EqArchiveWriter::create(ByteCursor::new(Vec::new())).unwrap();
    writer.insert("a", ByteCursor::new(vec![1])).unwrap();
    writer.insert("b", ByteCursor::new(vec![2])).unwrap();
    writer.insert("a", ByteCursor::new(vec![3])).unwrap();
    writer.remove("b");
    writer.insert("b", ByteCursor::new(vec![4])).unwrap();
    assert_eq!(writer.filenames(), vec!["a".to_string(), "b".to_string()]);
    assert_eq!(writer.filenames(), writer.filenames());
}

#[test]
fn directory_info_describes_the_written_directory() {
    let bytes = build(&[("one", vec![1]), ("two", vec![2, 2])]);
    let mut reader = EqArchiveReader::open(ByteCursor::new(bytes)).unwrap();
    let names = reader.filenames().unwrap();
    let info = reader.directory_info().unwrap();
    let expected = Directory { filenames: names }.to_bytes();
    assert_eq!(info.uncompressed_size as usize, expected.len());
    assert_eq!(info.uncompressed_size, 4 + (5 + 3) + (5 + 3));
    assert_eq!(info.block_count, 1);
}

#[test]
fn a_corrupt_block_reports_the_decoder_error() {
    let mut bytes = build(&[("a", vec![1, 2, 3, 4, 5, 6, 7, 8])]);
    // The first block's zlib stream starts after the header and the block header.
    bytes[20] ^= 0xff;
    let mut reader = EqArchiveReader::open(ByteCursor::new(bytes)).unwrap();
    let result = reader.get("a");
    assert!(matches!(
        result,
        Err(libeq::pfs::error::Error::IO(libeq::cursor::IoError::InvalidInput))
    ));
}

fn big_file() -> Vec<u8> {
    (0..20000u32).map(|i| (i * 7 % 251) as u8).collect()
}

#[test]
fn a_file_reader_reads_what_get_returns() {
    let big = big_file();
    let bytes = build(&[("big.bin", big.clone())]);
    let mut reader = EqArchiveReader::open(ByteCursor::new(bytes)).unwrap();
    let mut file = reader.get_reader("big.bin").unwrap().unwrap();
    assert_eq!(file.read_to_end().unwrap(), big);
    assert!(reader.get_reader("missing").unwrap().is_none());
}

#[test]
fn a_file_reader_stops_at_block_ends() {
    let big = big_file();
    let bytes = build(&[("big.bin", big.clone())]);
    let mut reader = EqArchiveReader::open(ByteCursor::new(bytes)).unwrap();
    let mut file = reader.get_reader("big.bin").unwrap().unwrap();
    assert_eq!(file.read(8190).unwrap(), big[..8190].to_vec());
    // Only two bytes of the first block are left.
    assert_eq!(file.read(10).unwrap(), big[8190..8192].to_vec());
    assert_eq!(file.read(10).unwrap(), big[8192..8202].to_vec());
    let rest = file.read_to_end().unwrap();
    assert_eq!(rest, big[8202..].to_vec());
    assert!(file.read(10).unwrap().is_empty());
}

#[test]
fn a_corrupt_later_block_fails_only_when_read() {
    let big = big_file();
    let mut bytes = build(&[("big.bin", big.clone())]);
    let first = u32::from_le_bytes([bytes[12], bytes[13], bytes[14], bytes[15]]) as usize;
    // The second block's zlib stream starts after the first block and its own header.
    bytes[12 + 8 + first + 8] ^= 0xff;
    let mut reader = EqArchiveReader::open(ByteCursor::new(bytes)).unwrap();
    let mut file = reader.get_reader("big.bin").unwrap().unwrap();
    assert_eq!(file.read(8192).unwrap(), big[..8192].to_vec());
    assert!(matches!(
        file.read(1),
        Err(libeq::pfs::error::Error::IO(libeq::cursor::IoError::InvalidInput))
    ));
    assert!(reader.get("big.bin").is_err());
}

#[test]
fn a_broken_later_block_header_is_an_io_error_for_get() {
    let big = big_file();
    let mut bytes = build(&[("big.bin", big.clone())]);
    let first = u32::from_le_bytes([bytes[12], bytes[13], bytes[14], bytes[15]]) as usize;
    // The second block claims more uncompressed bytes than a block may hold.
    let second = 12 + 8 + first;
    bytes[second + 4..second + 8].copy_from_slice(&0x0010_0000u32.to_le_bytes());
    let mut reader = EqArchiveReader::open(ByteCursor::new(bytes)).unwrap();
    assert!(matches!(
        reader.get("big.bin"),
        Err(libeq::pfs::error::Error::IO(libeq::cursor::IoError::Other))
    ));
    let mut file = reader.get_reader("big.bin").unwrap().unwrap();
    assert_eq!(file.read(8192).unwrap(), big[..8192].to_vec());
    assert!(matches!(file.read(1), Err(libeq::pfs::error::Error::CorruptArchive(_))));
}
