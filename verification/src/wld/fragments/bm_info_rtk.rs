//! The bitmap info fragment of Return to Krondor files.
use vstd::prelude::*;
use crate::bytes::{le_u32, u32_at, i32_at, push_u32};
use crate::wld::parse::{WResult, WldDocError, u32_field, rest, too_short};
use crate::wld::fragments::{Fragment, StringReference, too_short_spec};
use crate::wld::fragments::common::encoded_filename::{EncodedFilename, spec_filenames, describe_all,
    filenames_bytes, parse_filenames, push_filenames};

verus! {

/// The bitmap filenames of a texture, as Return to Krondor stores them.
///
/// **Type ID:** 0x2c
#[derive(Debug, PartialEq)]
pub struct BmInfoRtk {
    pub name_reference: StringReference,
    /// The number of entries less one.
    pub size1: u32,
    /// _Unknown_.
    pub rtk: u32,
    /// The bitmap filenames.
    pub entries: Vec<EncodedFilename>,
}

impl BmInfoRtk {
    pub const TYPE_ID: u32 = 0x2c;

    /// The stored form: name reference, `rtk`, `size1`, then the filenames.
    pub open spec fn spec_to_bytes(&self) -> Seq<u8> {
        self.name_reference.spec_to_bytes() + le_u32(self.rtk) + le_u32(self.size1) + filenames_bytes(self.entries@)
    }

    pub fn parse(input: &[u8]) -> (r: WResult<'_, BmInfoRtk>)
        ensures
            ({
                let s = input@;
                if s.len() < 12 {
                    r == Err::<(&[u8], BmInfoRtk), WldDocError>(too_short_spec(s))
                } else {
                    match spec_filenames(s.skip(12), (u32_at(s, 8) + 1) as nat) {
                        Some((stored, n)) => r matches Ok((rest, f)) && f.name_reference.0 == i32_at(s, 0)
                            && f.rtk == u32_at(s, 4) && f.size1 == u32_at(s, 8) && describe_all(f.entries@, stored)
                            && rest@ == s.skip(12 + n as int),
                        None => r == Err::<(&[u8], BmInfoRtk), WldDocError>(too_short_spec(s)),
                    }
                }
            }),
    {
        let name_reference = match StringReference::parse(input) {
            Ok((_, x)) => x,
            Err(e) => return Err(e),
        };
        let rtk = match u32_field(input, 4) {
            Some(v) => v,
            None => return Err(too_short(input)),
        };
        let size1 = match u32_field(input, 8) {
            Some(v) => v,
            None => return Err(too_short(input)),
        };
        match parse_filenames(input, 12, size1 as u64 + 1) {
            Some((entries, end)) => Ok((rest(input, end), BmInfoRtk { name_reference, size1, rtk, entries })),
            None => Err(too_short(input)),
        }
    }

    pub fn to_bytes(&self) -> (r: Vec<u8>)
        ensures
            r@ == self.spec_to_bytes(),
    {
        let mut out = self.name_reference.into_bytes();
        push_u32(&mut out, self.rtk);
        push_u32(&mut out, self.size1);
        push_filenames(&mut out, &self.entries);
        out
    }
}

impl Fragment for BmInfoRtk {
    open spec fn spec_into_bytes(&self) -> Seq<u8> {
        self.spec_to_bytes()
    }

    open spec fn spec_serializable(&self) -> bool {
        true
    }

    fn into_bytes(&self) -> (r: Vec<u8>) {
        self.to_bytes()
    }

    fn name_ref(&self) -> (r: &StringReference)
        ensures
            *r == self.name_reference,
    {
        &self.name_reference
    }

    fn type_id(&self) -> (r: u32)
        ensures
            r == 0x2c,
    {
        Self::TYPE_ID
    }
}

} // verus!
