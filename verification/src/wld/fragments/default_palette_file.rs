//! The default palette file fragment: the name of the palette bitmap.
use vstd::prelude::*;
use crate::wld::parse::{WResult};
use crate::wld::fragments::{Fragment, StringReference};
use crate::wld::fragments::common::encoded_filename::{EncodedFilename, spec_filename_at};

verus! {

/// The palette bitmap's filename. It has no stored name: its name reference
/// is 0.
///
/// **Type ID:** 0x01
#[derive(Debug, PartialEq)]
pub struct DefaultPaletteFile {
    pub name_reference: StringReference,
    pub entry: EncodedFilename,
}

impl DefaultPaletteFile {
    pub const TYPE_ID: u32 = 0x01;

    /// The stored form: the filename, zero-padded to a multiple of four bytes.
    pub open spec fn spec_to_bytes(&self) -> Seq<u8> {
        let e = self.entry.spec_to_bytes();
        e + Seq::new(((4 - (e.len() % 4) as int) % 4) as nat, |i: int| 0u8)
    }

    pub fn parse(input: &[u8]) -> (r: WResult<'_, DefaultPaletteFile>)
        ensures
            match spec_filename_at(input@) {
                Some((l, b, n)) => r matches Ok((rest, f)) && f.name_reference.0 == 0 && f.entry.describes(l, b)
                    && rest@ == input@.skip(n as int),
                None => r is Err,
            },
    {
        let name_reference = StringReference::new(0);
        match EncodedFilename::parse(input) {
            Ok((rest, entry)) => Ok((rest, DefaultPaletteFile { name_reference, entry })),
            Err(e) => Err(e),
        }
    }
}

impl Fragment for DefaultPaletteFile {
    open spec fn spec_into_bytes(&self) -> Seq<u8> {
        self.spec_to_bytes()
    }

    open spec fn spec_serializable(&self) -> bool {
        true
    }

    fn into_bytes(&self) -> (r: Vec<u8>) {
        let mut out = self.entry.into_bytes();
        let pad = (4 - out.len() % 4) % 4;
        let ghost body = out@;
        let mut k: usize = 0;
        while k < pad
            invariant
                k <= pad,
                out@ == body + Seq::new(k as nat, |i: int| 0u8),
            decreases pad - k,
        {
            out.push(0u8);
            k = k + 1;
            proof {
                assert(out@ =~= body + Seq::new(k as nat, |i: int| 0u8));
            }
        }
        out
    }

    fn name_ref(&self) -> (r: &StringReference)
        ensures
            *r == self.name_reference,
    {
        &self.name_reference
    }

    fn type_id(&self) -> (r: u32)
        ensures
            r == 0x01,
    {
        Self::TYPE_ID
    }
}

} // verus!
