//! The ambient light fragment: which regions a light source lights.
use vstd::prelude::*;
use crate::bytes::{le_u32, u32_at, i32_at, push_u32, lemma_u32_roundtrip, lemma_u32_bytes};
use crate::wld::parse::{WResult, WldDocError, u32_field, u32_list, u32s_at, u32s_bytes, push_u32s, append_bytes,
    rest, too_short, lemma_u32s_len, lemma_u32s_round_trip, lemma_u32s_bytes};
use crate::wld::fragments::{Fragment, FragmentRef, StringReference, too_short_spec, lemma_ref_fields, lemma_ref_fields_bytes};

verus! {

/// A reference to a light source reference fragment, and the regions it
/// lights.
///
/// **Type ID:** 0x2a
#[derive(Debug, PartialEq)]
pub struct AmbientLightFragment {
    pub name_reference: StringReference,
    /// The light source reference fragment.
    pub reference: FragmentRef,
    /// _Unknown_ - usually 0.
    pub flags: u32,
    /// The number of region ids.
    pub region_count: u32,
    /// The ids (indices among the file's region fragments) of the lit regions.
    pub regions: Vec<u32>,
}

/// The stored form of an ambient light with these fields.
pub open spec fn ambient_light_bytes(n: StringReference, r: FragmentRef, flags: u32, count: u32, regions: Seq<u32>) -> Seq<u8> {
    n.spec_to_bytes() + r.spec_to_bytes() + le_u32(flags) + le_u32(count) + u32s_bytes(regions)
}

/// Whether `s` is long enough for the ambient light stored at its start.
pub open spec fn ambient_light_fits(s: Seq<u8>) -> bool {
    s.len() >= 16 && s.len() >= 16 + 4 * u32_at(s, 12)
}

impl AmbientLightFragment {
    pub const TYPE_ID: u32 = 0x2a;

    pub open spec fn spec_to_bytes(&self) -> Seq<u8> {
        ambient_light_bytes(self.name_reference, self.reference, self.flags, self.region_count, self.regions@)
    }

    pub fn parse(input: &[u8]) -> (r: WResult<'_, AmbientLightFragment>)
        ensures
            ambient_light_fits(input@) ==> (r matches Ok((rest, f)) && {
                let s = input@;
                let c = u32_at(s, 12);
                &&& f.name_reference.0 == i32_at(s, 0)
                &&& f.reference == FragmentRef::spec_new(i32_at(s, 4))
                &&& f.flags == u32_at(s, 8)
                &&& f.region_count == c
                &&& f.regions@ == u32s_at(s, 16, c as nat)
                &&& rest@ == s.skip(16 + 4 * c)
            }),
            !ambient_light_fits(input@) ==> r == Err::<(&[u8], AmbientLightFragment), WldDocError>(too_short_spec(input@)),
    {
        let name_reference = match StringReference::parse(input) {
            Ok((_, x)) => x,
            Err(e) => return Err(e),
        };
        let reference = match crate::wld::parse::i32_field(input, 4) {
            Some(v) => FragmentRef::new(v),
            None => return Err(too_short(input)),
        };
        let flags = match u32_field(input, 8) {
            Some(v) => v,
            None => return Err(too_short(input)),
        };
        let region_count = match u32_field(input, 12) {
            Some(v) => v,
            None => return Err(too_short(input)),
        };
        let regions = match u32_list(input, 16, region_count) {
            Some(v) => v,
            None => return Err(too_short(input)),
        };
        let len = input.len();
        assert(16 + 4 * region_count <= len);
        Ok((rest(input, 16 + 4 * region_count as usize), AmbientLightFragment {
            name_reference,
            reference,
            flags,
            region_count,
            regions,
        }))
    }
}

impl Fragment for AmbientLightFragment {
    open spec fn spec_into_bytes(&self) -> Seq<u8> {
        self.spec_to_bytes()
    }

    open spec fn spec_serializable(&self) -> bool {
        true
    }

    fn into_bytes(&self) -> (r: Vec<u8>) {
        let mut out = self.name_reference.into_bytes();
        let b = self.reference.into_bytes();
        append_bytes(&mut out, b.as_slice());
        push_u32(&mut out, self.flags);
        push_u32(&mut out, self.region_count);
        push_u32s(&mut out, &self.regions);
        out
    }

    fn name_ref(&self) -> (r: &StringReference)
        ensures
            *r == self.name_reference,
    {
        &self.name_reference
    }

    fn type_id(&self) -> (r: u32)
        ensures
            r == 0x2a,
    {
        Self::TYPE_ID
    }
}

/// Reading back a serialized ambient light gives its fields back, whatever
/// follows it, when its count matches its list.
pub proof fn lemma_ambient_light_round_trip(
    n: StringReference,
    r: FragmentRef,
    flags: u32,
    regions: Seq<u32>,
    tail: Seq<u8>,
)
    requires
        r.wf(),
        regions.len() <= u32::MAX,
    ensures
        ({
            let s = ambient_light_bytes(n, r, flags, regions.len() as u32, regions) + tail;
            &&& ambient_light_fits(s)
            &&& StringReference(i32_at(s, 0)) == n
            &&& FragmentRef::spec_new(i32_at(s, 4)) == r
            &&& u32_at(s, 8) == flags
            &&& u32_at(s, 12) == regions.len()
            &&& u32s_at(s, 16, regions.len()) == regions
            &&& s.skip((16 + 4 * regions.len()) as int) == tail
        }),
{
    let c = regions.len() as u32;
    let head = n.spec_to_bytes() + r.spec_to_bytes() + le_u32(flags);
    let s = ambient_light_bytes(n, r, flags, c, regions) + tail;
    lemma_ref_fields(n, r, flags, le_u32(c) + u32s_bytes(regions) + tail);
    assert(head + (le_u32(c) + u32s_bytes(regions) + tail) =~= s);
    lemma_u32_roundtrip(c);
    assert(u32_at(s, 12) == u32_at(le_u32(c), 0));
    lemma_u32s_len(regions);
    lemma_u32s_round_trip(head + le_u32(c), regions, tail);
    assert(head + le_u32(c) + u32s_bytes(regions) + tail =~= s);
    assert(s.skip((16 + 4 * regions.len()) as int) =~= tail);
}

/// Serializing the fields read from `s` gives back the bytes they were read from.
pub proof fn lemma_ambient_light_bytes(s: Seq<u8>)
    requires
        ambient_light_fits(s),
    ensures
        ambient_light_bytes(
            StringReference(i32_at(s, 0)),
            FragmentRef::spec_new(i32_at(s, 4)),
            u32_at(s, 8),
            u32_at(s, 12),
            u32s_at(s, 16, u32_at(s, 12) as nat),
        ) == s.take(16 + 4 * u32_at(s, 12)),
{
    let c = u32_at(s, 12);
    lemma_ref_fields_bytes(s);
    lemma_u32_bytes(s, 12);
    lemma_u32s_bytes(s, 16, c as nat);
    assert(ambient_light_bytes(
        StringReference(i32_at(s, 0)),
        FragmentRef::spec_new(i32_at(s, 4)),
        u32_at(s, 8),
        c,
        u32s_at(s, 16, c as nat),
    ) =~= s.take(16 + 4 * c));
}

} // verus!
