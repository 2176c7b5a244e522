use vstd::prelude::*;
use vstd::utf8::{valid_utf8, decode_utf8, encode_utf8};
use crate::bytes::{le_u32, u32_at, push_u32, lemma_u32_roundtrip};
use crate::cursor::ByteCursor;
use crate::pfs::error::{Error, Failure, read_matches, io_error, corrupt};
use crate::text::{trim_trailing_zeros, trim_zeros, string_from_utf8, filename_too_long_message};

verus! {

/// The longest filename the directory may hold (1 KiB).
pub const MAX_FILENAME_LENGTH: u32 = 1024;

/// The directory file: the names of all files in the archive.
#[derive(Debug, PartialEq)]
pub struct Directory {
    pub filenames: Vec<String>,
}

/// The names as character sequences.
pub open spec fn names_of(v: Seq<String>) -> Seq<Seq<char>> {
    v.map_values(|s: String| s@)
}

/// One stored filename: a length, that many bytes, UTF-8 once trailing NULs are
/// dropped. Dropping the NUL bytes before decoding is the same as dropping NUL
/// characters after it, since a zero byte is always a whole character.
pub open spec fn spec_directory_string(s: Seq<u8>) -> Result<(Seq<char>, nat), Failure> {
    if s.len() < 4 {
        Err(Failure::Eof)
    } else {
        let len = u32_at(s, 0);
        if len > MAX_FILENAME_LENGTH {
            Err(Failure::Corrupt)
        } else if s.len() < 4 + len {
            Err(Failure::Eof)
        } else {
            let t = trim_trailing_zeros(s.subrange(4, 4 + len));
            if valid_utf8(t) {
                Ok((decode_utf8(t), (4 + len) as nat))
            } else {
                Err(Failure::Corrupt)
            }
        }
    }
}

/// The first `count` stored filenames of `s`, and how many bytes they take.
pub open spec fn spec_directory_strings(s: Seq<u8>, count: nat) -> Result<
    (Seq<Seq<char>>, nat),
    Failure,
>
    decreases count,
{
    if count == 0 {
        Ok((Seq::empty(), 0))
    } else {
        match spec_directory_strings(s, (count - 1) as nat) {
            Err(e) => Err(e),
            Ok((names, n)) => match spec_directory_string(s.skip(n as int)) {
                Err(e) => Err(e),
                Ok((name, m)) => Ok((names.push(name), n + m)),
            },
        }
    }
}

/// Once reading the filenames fails, reading more of them fails the same way.
proof fn lemma_strings_err_persists(s: Seq<u8>, k: nat, count: nat)
    requires
        k <= count,
        spec_directory_strings(s, k) is Err,
    ensures
        spec_directory_strings(s, count) == spec_directory_strings(s, k),
    decreases count - k,
{
    if k < count {
        lemma_strings_err_persists(s, k + 1, count);
    }
}

/// A whole directory: a count, then that many filenames.
pub open spec fn spec_read_directory(s: Seq<u8>) -> Result<(Seq<Seq<char>>, nat), Failure> {
    if s.len() < 4 {
        Err(Failure::Eof)
    } else {
        match spec_directory_strings(s.skip(4), u32_at(s, 0) as nat) {
            Err(e) => Err(e),
            Ok((names, n)) => Ok((names, n + 4)),
        }
    }
}

/// The value of a stored filename's length field: its UTF-8 bytes plus the
/// NUL terminator, truncated to 32 bits.
pub open spec fn entry_length_field(n: nat) -> u32 {
    let t = n as u32;
    if t == u32::MAX {
        0
    } else {
        (t + 1) as u32
    }
}

/// One serialized filename.
pub open spec fn spec_entry_bytes(name: Seq<char>) -> Seq<u8> {
    le_u32(entry_length_field(encode_utf8(name).len())) + encode_utf8(name) + seq![0u8]
}

/// The serialized filenames, in order.
pub open spec fn spec_entries_bytes(names: Seq<Seq<char>>) -> Seq<u8>
    decreases names.len(),
{
    if names.len() == 0 {
        Seq::empty()
    } else {
        spec_entries_bytes(names.drop_last()) + spec_entry_bytes(names.last())
    }
}

impl Directory {
    pub open spec fn names(&self) -> Seq<Seq<char>> {
        names_of(self.filenames@)
    }

    pub open spec fn spec_to_bytes(&self) -> Seq<u8> {
        le_u32(self.filenames@.len() as u32) + spec_entries_bytes(self.names())
    }

    /// Reads a file count and that many filenames.
    pub fn read(reader: &mut ByteCursor) -> (r: Result<Self, Error>)
        ensures
            final(reader).data() == old(reader).data(),
            match spec_read_directory(old(reader).rest()) {
                Ok((names, n)) => r is Ok && r->Ok_0.names() == names && final(reader).pos()
                    == old(reader).pos() + n,
                Err(e) => read_matches(r, e),
            },
    {
        let ghost start = reader.rest();
        let file_count = match reader.read_u32() {
            Ok(v) => v,
            Err(e) => return Err(io_error(e)),
        };
        let ghost body = start.skip(4);
        let ghost p0 = reader.pos();
        assert(reader.rest() == body);
        let mut filenames: Vec<String> = Vec::new();
        let mut i: u32 = 0;
        while i < file_count
            invariant
                i <= file_count,
                reader.data() == old(reader).data(),
                p0 == old(reader).pos() + 4,
                body == old(reader).rest().skip(4),
                file_count == u32_at(old(reader).rest(), 0),
                spec_directory_strings(body, i as nat) matches Ok((names, n)) && names_of(
                    filenames@,
                ) == names && reader.pos() == p0 + n && reader.rest() == body.skip(n as int),
            decreases file_count - i,
        {
            let ghost prev = spec_directory_strings(body, i as nat);
            let ghost n = prev->Ok_0.1;
            let name = match directory_string(reader) {
                Ok(s) => s,
                Err(e) => {
                    proof {
                        lemma_strings_err_persists(body, (i + 1) as nat, file_count as nat);
                    }
                    return Err(e);
                },
            };
            let ghost fnames = filenames@;
            filenames.push(name);
            proof {
                assert(names_of(filenames@) =~= names_of(fnames).push(name@));
            }
            i = i + 1;
            proof {
                let m = spec_directory_string(body.skip(n as int))->Ok_0.1;
                assert(reader.rest() =~= body.skip((n + m) as int));
            }
        }
        Ok(Directory { filenames })
    }

    pub fn to_bytes(&self) -> (r: Vec<u8>)
        ensures
            r@ == self.spec_to_bytes(),
    {
        let mut out = Vec::new();
        push_u32(&mut out, self.filenames.len() as u32);
        let mut i: usize = 0;
        while i < self.filenames.len()
            invariant
                i <= self.filenames@.len(),
                out@ == le_u32(self.filenames@.len() as u32) + spec_entries_bytes(
                    names_of(self.filenames@.take(i as int)),
                ),
            decreases self.filenames@.len() - i,
        {
            let bytes = self.filenames[i].as_str().as_bytes();
            let n = bytes.len();
            let t = n as u32;
            let len = if t == u32::MAX {
                0
            } else {
                t + 1
            };
            let ghost before = out@;
            push_u32(&mut out, len);
            let mut j: usize = 0;
            while j < n
                invariant
                    j <= n,
                    n == bytes@.len(),
                    out@ == before + le_u32(len) + bytes@.take(j as int),
                decreases n - j,
            {
                out.push(bytes[j]);
                j = j + 1;
                assert(out@ =~= before + le_u32(len) + bytes@.take(j as int));
            }
            out.push(0u8);
            proof {
                let names = names_of(self.filenames@.take(i + 1));
                assert(names.drop_last() =~= names_of(self.filenames@.take(i as int)));
                assert(names.last() == self.filenames@[i as int]@);
                assert(bytes@.take(j as int) =~= bytes@);
                assert(out@ =~= before + spec_entry_bytes(names.last()));
            }
            i = i + 1;
        }
        proof {
            assert(self.filenames@.take(i as int) =~= self.filenames@);
        }
        out
    }
}

/// Reads one stored filename.
fn directory_string(reader: &mut ByteCursor) -> (r: Result<String, Error>)
    ensures
        final(reader).data() == old(reader).data(),
        match spec_directory_string(old(reader).rest()) {
            Ok((name, n)) => r is Ok && r->Ok_0@ == name && final(reader).pos() == old(reader).pos()
                + n,
            Err(e) => read_matches(r, e),
        },
{
    let ghost start = reader.rest();
    let length = match reader.read_u32() {
        Ok(v) => v,
        Err(e) => return Err(io_error(e)),
    };
    if length > MAX_FILENAME_LENGTH {
        return Err(Error::CorruptArchive(filename_too_long_message(length, MAX_FILENAME_LENGTH)));
    }
    let mut string_data = match reader.read_exact(length as usize) {
        Ok(v) => v,
        Err(e) => return Err(io_error(e)),
    };
    proof {
        assert(string_data@ =~= start.subrange(4, 4 + length));
    }
    trim_zeros(&mut string_data);
    match string_from_utf8(string_data) {
        Some(s) => Ok(s),
        None => Err(corrupt("Invalid utf8 data in file directory")),
    }
}

/// A name the directory can hold as it is: its UTF-8 form is shorter than
/// the longest stored filename and does not end in a NUL byte.
pub open spec fn storable_name(name: Seq<char>) -> bool {
    &&& encode_utf8(name).len() < MAX_FILENAME_LENGTH
    &&& trim_trailing_zeros(encode_utf8(name)) == encode_utf8(name)
}

/// A stored filename reads back as the name, whatever follows it.
pub proof fn lemma_directory_string_round_trip(name: Seq<char>, tail: Seq<u8>)
    requires
        storable_name(name),
    ensures
        spec_directory_string(spec_entry_bytes(name) + tail) == Ok::<(Seq<char>, nat), Failure>(
            (name, spec_entry_bytes(name).len()),
        ),
{
    let u = encode_utf8(name);
    let len = (u.len() + 1) as u32;
    assert(entry_length_field(u.len()) == len);
    lemma_u32_roundtrip(len);
    let t = spec_entry_bytes(name) + tail;
    assert(u32_at(t, 0) == u32_at(le_u32(len), 0));
    assert(t.subrange(4, 4 + len) =~= u.push(0u8));
    assert(u.push(0u8).drop_last() =~= u);
    assert(trim_trailing_zeros(u.push(0u8)) == trim_trailing_zeros(u));
    vstd::utf8::encode_utf8_valid_utf8(name);
    vstd::utf8::encode_utf8_decode_utf8(name);
}

/// Stored filenames read back as the names, whatever follows them.
pub proof fn lemma_directory_strings_round_trip(names: Seq<Seq<char>>, tail: Seq<u8>)
    requires
        forall|i: int| 0 <= i < names.len() ==> storable_name(#[trigger] names[i]),
    ensures
        spec_directory_strings(spec_entries_bytes(names) + tail, names.len()) == Ok::<(Seq<Seq<char>>, nat), Failure>(
            (names, spec_entries_bytes(names).len()),
        ),
    decreases names.len(),
{
    if names.len() > 0 {
        let p = names.drop_last();
        let x = names.last();
        assert forall|i: int| 0 <= i < p.len() implies storable_name(#[trigger] p[i]) by {
            assert(p[i] == names[i]);
        }
        assert(storable_name(names[names.len() - 1]));
        let rest = spec_entry_bytes(x) + tail;
        lemma_directory_strings_round_trip(p, rest);
        let s = spec_entries_bytes(names) + tail;
        assert(s =~= spec_entries_bytes(p) + rest);
        assert(s.skip(spec_entries_bytes(p).len() as int) =~= rest);
        lemma_directory_string_round_trip(x, tail);
        assert(p.push(x) =~= names);
    } else {
        assert(names =~= Seq::<Seq<char>>::empty());
    }
}

/// A serialized directory reads back as its names, when each name can be
/// stored as it is and their number fits the count.
pub proof fn lemma_directory_round_trip(names: Seq<Seq<char>>, tail: Seq<u8>)
    requires
        forall|i: int| 0 <= i < names.len() ==> storable_name(#[trigger] names[i]),
        names.len() <= u32::MAX,
    ensures
        spec_read_directory(le_u32(names.len() as u32) + spec_entries_bytes(names) + tail) == Ok::<
            (Seq<Seq<char>>, nat),
            Failure,
        >((names, 4 + spec_entries_bytes(names).len())),
{
    let s = le_u32(names.len() as u32) + spec_entries_bytes(names) + tail;
    lemma_u32_roundtrip(names.len() as u32);
    assert(u32_at(s, 0) == u32_at(le_u32(names.len() as u32), 0));
    assert(s.skip(4) =~= spec_entries_bytes(names) + tail);
    lemma_directory_strings_round_trip(names, tail);
}

} // verus!
