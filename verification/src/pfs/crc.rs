use vstd::prelude::*;
use vstd::utf8::encode_utf8;
use crate::pfs::index_entry::IndexEntry;

verus! {

/// One step of the CRC-32 polynomial division (polynomial 0x04c11db7, MSB first).
pub open spec fn crc_step(crc: u32) -> u32 {
    if crc & 0x80000000 != 0 {
        (crc << 1u32) ^ 0x04c11db7u32
    } else {
        crc << 1u32
    }
}

/// `crc_step` applied `n` times.
pub open spec fn crc_steps(crc: u32, n: nat) -> u32
    decreases n,
{
    if n == 0 {
        crc
    } else {
        crc_steps(crc_step(crc), (n - 1) as nat)
    }
}

/// Entry `idx` of the CRC lookup table.
pub open spec fn crc_table_entry(idx: u32) -> u32 {
    crc_steps(idx << 24u32, 8)
}

/// Folds one byte into a running CRC.
pub open spec fn crc_update(crc: u32, byte: u8) -> u32 {
    (crc << 8u32) ^ crc_table_entry(((crc >> 24u32) ^ (byte as u32)) & 0xffu32)
}

/// The CRC of a byte sequence, starting from 0.
pub open spec fn crc_of(bytes: Seq<u8>) -> u32
    decreases bytes.len(),
{
    if bytes.len() == 0 {
        0
    } else {
        crc_update(crc_of(bytes.drop_last()), bytes.last())
    }
}

/// The CRC that keys a filename in the index: that of its UTF-8 bytes followed
/// by a NUL terminator.
pub open spec fn spec_filename_crc(name: Seq<char>) -> u32 {
    crc_of(encode_utf8(name).push(0u8))
}

/// The CRC of a filename, the key under which the index stores its entry.
#[derive(Debug, Clone, Copy, PartialEq, Eq, Hash, Structural)]
pub struct FilenameCrc(pub u32);

impl FilenameCrc {
    /// The key of the directory file.
    pub fn directory() -> (r: FilenameCrc)
        ensures
            r.0 == IndexEntry::DIRECTORY_CRC,
    {
        FilenameCrc(IndexEntry::DIRECTORY_CRC)
    }

    pub fn new(filename: &str) -> (r: Self)
        ensures
            r.0 == spec_filename_crc(filename@),
    {
        let table = build_crc_table();
        let bytes = filename.as_bytes();
        let mut crc: u32 = 0;
        let mut i: usize = 0;
        while i < bytes.len()
            invariant
                i <= bytes@.len(),
                table@.len() == 256,
                forall|k: int| 0 <= k < 256 ==> #[trigger] table@[k] == crc_table_entry(k as u32),
                crc == crc_of(bytes@.take(i as int)),
            decreases bytes@.len() - i,
        {
            crc = update(&table, crc, bytes[i]);
            i = i + 1;
            proof {
                assert(bytes@.take(i as int).drop_last() =~= bytes@.take(i - 1));
            }
        }
        crc = update(&table, crc, 0u8);
        proof {
            assert(bytes@.take(i as int) =~= bytes@);
            assert(bytes@.push(0u8).drop_last() =~= bytes@);
        }
        FilenameCrc(crc)
    }

    pub fn from_raw(raw: u32) -> (r: Self)
        ensures
            r.0 == raw,
    {
        FilenameCrc(raw)
    }

    pub fn raw(self) -> (r: u32)
        ensures
            r == self.0,
    {
        self.0
    }
}

fn update(table: &Vec<u32>, crc: u32, byte: u8) -> (r: u32)
    requires
        table@.len() == 256,
        forall|k: int| 0 <= k < 256 ==> #[trigger] table@[k] == crc_table_entry(k as u32),
    ensures
        r == crc_update(crc, byte),
{
    let idx = ((crc >> 24u32) ^ (byte as u32)) & 0xffu32;
    assert(idx < 256) by (bit_vector)
        requires
            idx == ((crc >> 24u32) ^ (byte as u32)) & 0xffu32,
    ;
    (crc << 8u32) ^ table[idx as usize]
}

/// The 256-entry lookup table of the CRC.
pub fn build_crc_table() -> (r: Vec<u32>)
    ensures
        r@.len() == 256,
        forall|k: int| 0 <= k < 256 ==> #[trigger] r@[k] == crc_table_entry(k as u32),
{
    let mut crc_table: Vec<u32> = Vec::new();
    let mut idx: u32 = 0;
    while idx < 256
        invariant
            idx <= 256,
            crc_table@.len() == idx,
            forall|k: int| 0 <= k < idx ==> #[trigger] crc_table@[k] == crc_table_entry(k as u32),
        decreases 256 - idx,
    {
        let mut crc: u32 = idx << 24u32;
        let mut round: u32 = 0;
        while round < 8
            invariant
                round <= 8,
                crc_steps(crc, (8 - round) as nat) == crc_table_entry(idx),
            decreases 8 - round,
        {
            crc = if (crc & 0x80000000) != 0 {
                (crc << 1u32) ^ 0x04c11db7u32
            } else {
                crc << 1u32
            };
            round = round + 1;
        }
        crc_table.push(crc);
        idx = idx + 1;
    }
    crc_table
}

} // verus!
