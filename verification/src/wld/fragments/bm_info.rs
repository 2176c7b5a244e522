//! The bitmap info fragment: the filenames of a texture's bitmaps.
use vstd::prelude::*;
use crate::bytes::{le_u32, u32_at, i32_at, push_u32};
use crate::wld::parse::{WResult, WldDocError, u32_field, rest, too_short};
use crate::wld::fragments::{Fragment, StringReference, too_short_spec};
use crate::wld::fragments::common::encoded_filename::{EncodedFilename, spec_filenames, describe_all,
    filenames_bytes, parse_filenames, push_filenames};

verus! {

/// The bitmap filenames of a texture: one, or several for an animated one.
///
/// **Type ID:** 0x03
#[derive(Debug, PartialEq)]
pub struct BmInfo {
    pub name_reference: StringReference,
    /// The number of entries less one.
    pub entry_count: u32,
    /// The bitmap filenames.
    pub entries: Vec<EncodedFilename>,
}

/// How many zero bytes follow `n` bytes of a bitmap info: `(3 - n % 4) % 4`.
pub open spec fn bm_info_padding(n: nat) -> nat {
    ((3 - (n % 4) as int) % 4) as nat
}

impl BmInfo {
    pub const TYPE_ID: u32 = 0x03;

    /// The stored form without its padding.
    pub open spec fn spec_body(&self) -> Seq<u8> {
        self.name_reference.spec_to_bytes() + le_u32((self.entries@.len() - 1) as u32) + filenames_bytes(self.entries@)
    }

    /// The stored form: the body, then zero padding.
    pub open spec fn spec_to_bytes(&self) -> Seq<u8> {
        self.spec_body() + Seq::new(bm_info_padding(self.spec_body().len()), |i: int| 0u8)
    }

    pub fn parse(input: &[u8]) -> (r: WResult<'_, BmInfo>)
        ensures
            ({
                let s = input@;
                if s.len() < 8 {
                    r == Err::<(&[u8], BmInfo), WldDocError>(too_short_spec(s))
                } else {
                    match spec_filenames(s.skip(8), (u32_at(s, 4) + 1) as nat) {
                        Some((stored, n)) => r matches Ok((rest, f)) && f.name_reference.0 == i32_at(s, 0)
                            && f.entry_count == u32_at(s, 4) && describe_all(f.entries@, stored)
                            && rest@ == s.skip(8 + n as int),
                        None => r == Err::<(&[u8], BmInfo), WldDocError>(too_short_spec(s)),
                    }
                }
            }),
    {
        let name_reference = match StringReference::parse(input) {
            Ok((_, x)) => x,
            Err(e) => return Err(e),
        };
        let entry_count = match u32_field(input, 4) {
            Some(v) => v,
            None => return Err(too_short(input)),
        };
        match parse_filenames(input, 8, entry_count as u64 + 1) {
            Some((entries, end)) => Ok((rest(input, end), BmInfo { name_reference, entry_count, entries })),
            None => Err(too_short(input)),
        }
    }
}

impl Fragment for BmInfo {
    open spec fn spec_into_bytes(&self) -> Seq<u8> {
        self.spec_to_bytes()
    }

    /// The entry count is written from the list, which must not be empty.
    open spec fn spec_serializable(&self) -> bool {
        1 <= self.entries@.len() <= u32::MAX + 1
    }

    fn into_bytes(&self) -> (r: Vec<u8>) {
        let mut out = self.name_reference.into_bytes();
        push_u32(&mut out, (self.entries.len() - 1) as u32);
        push_filenames(&mut out, &self.entries);
        let pad = (3 - out.len() % 4) % 4;
        let ghost body = out@;
        let mut k: usize = 0;
        while k < pad
            invariant
                k <= pad,
                out@ == body + Seq::new(k as nat, |i: int| 0u8),
            decreases pad - k,
        {
            out.push(0u8);
            k = k + 1;
            proof {
                assert(out@ =~= body + Seq::new(k as nat, |i: int| 0u8));
            }
        }
        proof {
            assert(body == self.spec_body());
        }
        out
    }

    fn name_ref(&self) -> (r: &StringReference)
        ensures
            *r == self.name_reference,
    {
        &self.name_reference
    }

    fn type_id(&self) -> (r: u32)
        ensures
            r == 0x03,
    {
        Self::TYPE_ID
    }
}

} // verus!
