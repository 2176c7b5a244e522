use libeq::cursor::ByteCursor;
use libeq::pfs::block::Block;
use libeq::pfs::block_header::BlockHeader;
use libeq::pfs::directory::Directory;
use libeq::pfs::footer::Footer;
use libeq::pfs::index_entry::IndexEntry;

fn block_fixture() -> Block {
    Block {
        uncompressed_size: 10,
        compressed_data: vec![0xDE, 0xAD, 0xBE, 0xEF],
    }
}

#[test]
fn block_it_reads() {
    let bytes = block_fixture().to_bytes();
    let header = BlockHeader {
        compressed_size: 4,
        uncompressed_size: 10,
    };
    let block = Block::read(header, &mut ByteCursor::new(bytes[8..].to_vec())).unwrap();

    assert_eq!(block.uncompressed_size, 10);
    assert_eq!(block.compressed_data, vec![0xDE, 0xAD, 0xBE, 0xEF]);
}

#[test]
fn block_it_serializes() {
    let data = block_fixture().to_bytes();
    let header = BlockHeader {
        compressed_size: 4,
        uncompressed_size: 10,
    };
    let block = Block::read(header, &mut ByteCursor::new(data[8..].to_vec())).unwrap();

    assert_eq!(block.to_bytes(), data);
}

fn block_header_fixture() -> BlockHeader {
    BlockHeader {
        compressed_size: 100,
        uncompressed_size: 200,
    }
}

#[test]
fn block_header_it_reads() {
    let data = block_header_fixture().to_bytes();
    let header = BlockHeader::read(&mut ByteCursor::new(data)).unwrap();

    assert_eq!(header.compressed_size, 100);
    assert_eq!(header.uncompressed_size, 200);
}

#[test]
fn block_header_it_serializes() {
    let data = block_header_fixture().to_bytes();
    let header = BlockHeader::read(&mut ByteCursor::new(data.clone())).unwrap();

    assert_eq!(header.to_bytes(), data);
}

#[test]
fn block_header_rejects_oversized_blocks() {
    let data = BlockHeader { compressed_size: 8321, uncompressed_size: 10 }.to_bytes();
    assert!(BlockHeader::read(&mut ByteCursor::new(data)).is_err());
    let data = BlockHeader { compressed_size: 10, uncompressed_size: 8193 }.to_bytes();
    assert!(BlockHeader::read(&mut ByteCursor::new(data)).is_err());
}

fn directory_fixture() -> Directory {
    Directory {
        filenames: vec![
            "texture.bmp".to_string(),
            "model.wld".to_string(),
            "sound.wav".to_string(),
        ],
    }
}

#[test]
fn directory_it_reads() {
    let data = directory_fixture().to_bytes();
    let dir = Directory::read(&mut ByteCursor::new(data)).unwrap();

    assert_eq!(dir.filenames.len(), 3);
    assert_eq!(dir.filenames[0], "texture.bmp");
    assert_eq!(dir.filenames[1], "model.wld");
    assert_eq!(dir.filenames[2], "sound.wav");
}

#[test]
fn directory_it_serializes() {
    let data = directory_fixture().to_bytes();
    let dir = Directory::read(&mut ByteCursor::new(data.clone())).unwrap();

    assert_eq!(dir.to_bytes(), data);
}

#[test]
fn directory_stores_length_and_terminator() {
    let data = Directory { filenames: vec!["ab".to_string()] }.to_bytes();
    assert_eq!(data, vec![1, 0, 0, 0, 3, 0, 0, 0, b'a', b'b', 0]);
}

#[test]
fn directory_rejects_long_names() {
    let mut data = vec![1, 0, 0, 0];
    data.extend_from_slice(&1025u32.to_le_bytes());
    data.extend(std::iter::repeat(b'a').take(1025));
    assert!(Directory::read(&mut ByteCursor::new(data)).is_err());
}

fn footer_fixture() -> Footer {
    Footer {
        footer_string: *b"STEVE",
        timestamp: 1000000000,
    }
}

#[test]
fn footer_it_reads() {
    let data = footer_fixture().to_bytes();
    let footer = Footer::read(&mut ByteCursor::new(data)).unwrap();

    assert_eq!(footer.footer_string, *b"STEVE");
    assert_eq!(footer.timestamp, 1000000000);
}

#[test]
fn footer_it_serializes() {
    let data = footer_fixture().to_bytes();
    let footer = Footer::read(&mut ByteCursor::new(data.clone())).unwrap();

    assert_eq!(footer.to_bytes(), data);
}

#[test]
fn footer_timestamp_is_big_endian() {
    let data = Footer { footer_string: *b"STEVE", timestamp: 0x01020304 }.to_bytes();
    assert_eq!(data, vec![b'S', b'T', b'E', b'V', b'E', 1, 2, 3, 4]);
}

fn index_entry_fixture() -> IndexEntry {
    IndexEntry {
        filename_crc: 0xAABBCCDD,
        data_offset: 0x1000,
        uncompressed_size: 0x2000,
    }
}

#[test]
fn index_entry_it_reads() {
    let data = index_entry_fixture().to_bytes();
    let entry = IndexEntry::read(&mut ByteCursor::new(data)).unwrap();

    assert_eq!(entry.filename_crc, 0xAABBCCDD);
    assert_eq!(entry.data_offset, 0x1000);
    assert_eq!(entry.uncompressed_size, 0x2000);
}

#[test]
fn index_entry_it_serializes() {
    let data = index_entry_fixture().to_bytes();
    let entry = IndexEntry::read(&mut ByteCursor::new(data.clone())).unwrap();

    assert_eq!(entry.to_bytes(), data);
}

#[test]
fn index_entry_parse_leaves_the_rest() {
    let mut data = index_entry_fixture().to_bytes();
    data.push(7);
    let (rest, entry) = IndexEntry::parse(&data).unwrap();
    assert_eq!(rest, &[7u8][..]);
    assert_eq!(entry, index_entry_fixture());
    assert!(IndexEntry::parse(&data[..11]).is_none());
}
