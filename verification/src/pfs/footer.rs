use vstd::prelude::*;
use crate::bytes::{be_u32, be_u32_at, push_be_u32, lemma_u32_roundtrip, lemma_u32_bytes};
use crate::cursor::{ByteCursor, IoError};
use crate::pfs::error::{Error, io_error};

verus! {

/// The optional 9-byte trailer: a 5-byte marker (nearly always `STEVE`) and a
/// big-endian timestamp.
#[derive(Debug, Default, Clone, Copy, PartialEq, Eq)]
pub struct Footer {
    pub footer_string: [u8; 5],
    pub timestamp: u32,
}

impl Footer {
    /// `b"STEVE"`
    pub const FOOTER_STRING: [u8; 5] = [0x53, 0x54, 0x45, 0x56, 0x45];

    pub open spec fn spec_to_bytes(self) -> Seq<u8> {
        self.footer_string@ + be_u32(self.timestamp)
    }

    pub open spec fn decode(s: Seq<u8>) -> Footer {
        Footer { footer_string: spec_array5(s), timestamp: be_u32_at(s, 5) }
    }

    pub fn read(reader: &mut ByteCursor) -> (r: Result<Self, Error>)
        ensures
            final(reader).data() == old(reader).data(),
            old(reader).rest().len() < 9 ==> r == Err::<Self, Error>(Error::IO(IoError::UnexpectedEof))
                && final(reader).pos() == old(reader).data().len(),
            old(reader).rest().len() >= 9 ==> r == Ok::<Self, Error>(Self::decode(old(reader).rest()))
                && final(reader).pos() == old(reader).pos() + 9,
    {
        let s = match reader.read_exact(5) {
            Ok(v) => v,
            Err(e) => return Err(io_error(e)),
        };
        let footer_string = [s[0], s[1], s[2], s[3], s[4]];
        let timestamp = match reader.read_be_u32() {
            Ok(v) => v,
            Err(e) => return Err(io_error(e)),
        };
        proof {
            assert(footer_string@ =~= old(reader).rest().take(5));
            lemma_array5(old(reader).rest());
        }
        Ok(Footer { footer_string, timestamp })
    }

    pub fn to_bytes(self) -> (r: Vec<u8>)
        ensures
            r@ == self.spec_to_bytes(),
    {
        let mut out = Vec::new();
        let mut i: usize = 0;
        while i < 5
            invariant
                i <= 5,
                out@ == self.footer_string@.take(i as int),
            decreases 5 - i,
        {
            out.push(self.footer_string[i]);
            i = i + 1;
            assert(out@ =~= self.footer_string@.take(i as int));
        }
        push_be_u32(&mut out, self.timestamp);
        proof {
            assert(out@ =~= self.spec_to_bytes());
        }
        out
    }
}

/// The first five bytes of `s` as an array.
pub open spec fn spec_array5(s: Seq<u8>) -> [u8; 5] {
    choose|a: [u8; 5]| a@ == s.take(5)
}

proof fn lemma_array5(s: Seq<u8>)
    requires
        s.len() >= 5,
    ensures
        spec_array5(s)@ == s.take(5),
        forall|a: [u8; 5]| a@ == s.take(5) ==> a == spec_array5(s),
{
    broadcast use vstd::array::group_array_axioms;

    let w = [s[0], s[1], s[2], s[3], s[4]];
    assert(w@ =~= s.take(5));
    let c = spec_array5(s);
    assert forall|a: [u8; 5]| a@ == s.take(5) implies a == c by {
        assert forall|i: int| 0 <= i < 5 implies a[i] == c[i] by {
            assert(a@[i] == c@[i]);
        }
        assert(a =~= c);
    }
}

/// Reading back a serialized footer gives the same footer.
pub proof fn lemma_footer_roundtrip(f: Footer, rest: Seq<u8>)
    ensures
        Footer::decode(f.spec_to_bytes() + rest) == f,
        f.spec_to_bytes().len() == 9,
{
    lemma_u32_roundtrip(f.timestamp);
    let s = f.spec_to_bytes() + rest;
    lemma_array5(s);
    assert(s.take(5) =~= f.footer_string@);
    assert(spec_array5(s)@ == f.footer_string@);
}

/// Serializing the footer read from `s` gives back the 9 bytes it was read from.
pub proof fn lemma_footer_bytes(s: Seq<u8>)
    requires
        s.len() >= 9,
    ensures
        Footer::decode(s).spec_to_bytes() == s.take(9),
{
    lemma_array5(s);
    lemma_u32_bytes(s, 5);
    assert(Footer::decode(s).spec_to_bytes() =~= s.take(9));
}

} // verus!
