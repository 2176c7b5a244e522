//! The region flag fragment: marks a list of regions (water, lava, PvP, zone
//! points) through its name or its user data.
use vstd::prelude::*;
use vstd::utf8::{valid_utf8, decode_utf8, encode_utf8};
use crate::bytes::{le_u32, u32_at, i32_at, push_u32};
use crate::wld::parse::{WResult, WldDocError, u32_field, u32_list, u32s_at, u32s_bytes, push_u32s, rest, too_short};
use crate::text::utf8_lossy;
use crate::wld::strings::{xor_key, spec_decoded_text, decode_string, encode_string};
use crate::wld::fragments::{Fragment, StringReference, too_short_spec};

verus! {

/// Flags the listed regions in the way its name (`WT_ZONE`, `LA_ZONE`,
/// `DRP_ZONE`, `DRNTP..._ZONE`) or its user data says.
///
/// **Type ID:** 0x29
#[derive(Debug, PartialEq)]
pub struct RegionFlagFragment {
    pub name_reference: StringReference,
    /// _Unknown_ - usually 0.
    pub flags: u32,
    /// The number of region ids.
    pub region_count: u32,
    /// The ids of the flagged regions.
    pub regions: Vec<u32>,
    /// The number of bytes of `user_data` as stored.
    pub user_data_size: u32,
    /// The decoded user data (a "magic" string), without its NUL padding.
    pub user_data: String,
}

/// Where the user data size is stored, for `count` regions.
pub open spec fn user_data_size_offset(count: u32) -> int {
    12 + 4 * count
}

/// Whether `s` is long enough for the region flag fragment stored at its start.
pub open spec fn region_flag_fits(s: Seq<u8>) -> bool {
    &&& s.len() >= 12
    &&& s.len() >= user_data_size_offset(u32_at(s, 8)) + 4
    &&& s.len() >= user_data_size_offset(u32_at(s, 8)) + 4 + u32_at(s, user_data_size_offset(u32_at(s, 8)))
}

/// `b` cut or zero-padded to `n` bytes.
pub open spec fn resized(b: Seq<u8>, n: nat) -> Seq<u8> {
    Seq::new(n, |i: int| if i < b.len() { b[i] } else { 0u8 })
}

/// How many zero bytes pad `n` bytes to a multiple of four.
pub open spec fn padding(n: u32) -> nat {
    ((4 - n % 4) % 4) as nat
}

impl RegionFlagFragment {
    pub const TYPE_ID: u32 = 0x29;

    /// The stored user data: the text and a NUL, encoded, cut or padded with
    /// zeros to the stored size rounded up to a multiple of four.
    pub open spec fn spec_user_data_bytes(&self) -> Seq<u8> {
        resized(
            xor_key(encode_utf8(self.user_data@.push('\0'))),
            (self.user_data_size + padding(self.user_data_size)) as nat,
        )
    }

    pub open spec fn spec_to_bytes(&self) -> Seq<u8> {
        self.name_reference.spec_to_bytes() + le_u32(self.flags) + le_u32(self.region_count) + u32s_bytes(
            self.regions@,
        ) + le_u32(self.user_data_size) + self.spec_user_data_bytes()
    }

    pub fn parse(input: &[u8]) -> (r: WResult<'_, RegionFlagFragment>)
        ensures
            region_flag_fits(input@) ==> (r matches Ok((rest, f)) && {
                let s = input@;
                let c = u32_at(s, 8);
                let o = user_data_size_offset(c);
                let n = u32_at(s, o);
                let text = spec_decoded_text(s.subrange(o + 4, o + 4 + n));
                &&& f.name_reference.0 == i32_at(s, 0)
                &&& f.flags == u32_at(s, 4)
                &&& f.region_count == c
                &&& f.regions@ == u32s_at(s, 12, c as nat)
                &&& f.user_data_size == n
                &&& f.user_data@ == utf8_lossy(text)
                &&& (valid_utf8(text) ==> f.user_data@ == decode_utf8(text))
                &&& rest@ == s.skip(o + 4 + n)
            }),
            !region_flag_fits(input@) ==> r == Err::<(&[u8], RegionFlagFragment), WldDocError>(
                too_short_spec(input@),
            ),
    {
        let name_reference = match StringReference::parse(input) {
            Ok((_, x)) => x,
            Err(e) => return Err(e),
        };
        let flags = match u32_field(input, 4) {
            Some(v) => v,
            None => return Err(too_short(input)),
        };
        let region_count = match u32_field(input, 8) {
            Some(v) => v,
            None => return Err(too_short(input)),
        };
        let regions = match u32_list(input, 12, region_count) {
            Some(v) => v,
            None => return Err(too_short(input)),
        };
        let len = input.len();
        assert(12 + 4 * region_count <= len);
        let o: usize = 12 + 4 * region_count as usize;
        let user_data_size = match u32_field(input, o) {
            Some(v) => v,
            None => return Err(too_short(input)),
        };
        if len - o - 4 < user_data_size as usize {
            return Err(too_short(input));
        }
        let (_, tail) = input.split_at(o + 4);
        let (data, _) = tail.split_at(user_data_size as usize);
        proof {
            assert(data@ =~= input@.subrange(o + 4, o + 4 + user_data_size));
        }
        let user_data = decode_string(data);
        Ok((rest(input, o + 4 + user_data_size as usize), RegionFlagFragment {
            name_reference,
            flags,
            region_count,
            regions,
            user_data_size,
            user_data,
        }))
    }
}

impl Fragment for RegionFlagFragment {
    open spec fn spec_into_bytes(&self) -> Seq<u8> {
        self.spec_to_bytes()
    }

    open spec fn spec_serializable(&self) -> bool {
        true
    }

    fn into_bytes(&self) -> (r: Vec<u8>) {
        let mut text = self.user_data.clone();
        crate::text::string_push(&mut text, '\0');
        let enc = encode_string(text.as_str());
        let size = self.user_data_size as u64;
        let target: u64 = size + (4 - size % 4) % 4;
        let mut out = self.name_reference.into_bytes();
        push_u32(&mut out, self.flags);
        push_u32(&mut out, self.region_count);
        push_u32s(&mut out, &self.regions);
        push_u32(&mut out, self.user_data_size);
        let ghost start = out@;
        let ghost want = resized(enc@, target as nat);
        let mut i: u64 = 0;
        while i < target
            invariant
                i <= target,
                want == resized(enc@, target as nat),
                out@ == start + want.take(i as int),
            decreases target - i,
        {
            if i < enc.len() as u64 {
                out.push(enc[i as usize]);
            } else {
                out.push(0u8);
            }
            i = i + 1;
            proof {
                assert(out@ =~= start + want.take(i as int));
            }
        }
        proof {
            assert(want.take(i as int) =~= want);
            assert(text@ == self.user_data@.push('\0'));
            assert(out@ =~= self.spec_to_bytes());
        }
        out
    }

    fn name_ref(&self) -> (r: &StringReference)
        ensures
            *r == self.name_reference,
    {
        &self.name_reference
    }

    fn type_id(&self) -> (r: u32)
        ensures
            r == 0x29,
    {
        Self::TYPE_ID
    }
}

} // verus!
