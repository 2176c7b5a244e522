//! The skeleton track set reference fragment: a reference to a skeleton (hierarchical sprite) definition.
use vstd::prelude::*;
use crate::bytes::{le_u32, u32_at, i32_at, push_u32};
use crate::wld::parse::{WResult, WldDocError, u32_field, rest, too_short};
use crate::wld::fragments::{Fragment, FragmentRef, StringReference, too_short_spec, lemma_ref_fields, lemma_ref_fields_bytes};

verus! {

/// The skeleton track set reference fragment: a reference to a skeleton (hierarchical sprite) definition.
///
/// **Type ID:** 0x11
#[derive(Debug, Clone, Copy, PartialEq, Eq, Structural)]
pub struct SkeletonTrackSetReferenceFragment {
    pub name_reference: StringReference,
    /// The reference to the skeleton track set.
    pub reference: FragmentRef,
    /// _Unknown_ - usually 0.
    pub params1: u32,
}

impl SkeletonTrackSetReferenceFragment {
    pub const TYPE_ID: u32 = 0x11;

    /// The fragment stored at the start of `s`.
    pub open spec fn decode(s: Seq<u8>) -> Self {
        SkeletonTrackSetReferenceFragment {
            name_reference: StringReference(i32_at(s, 0)),
            reference: FragmentRef::spec_new(i32_at(s, 4)),
            params1: u32_at(s, 8),
        }
    }

    /// The stored form: name reference, fragment reference, params1.
    pub open spec fn spec_to_bytes(&self) -> Seq<u8> {
        self.name_reference.spec_to_bytes() + self.reference.spec_to_bytes() + le_u32(self.params1)
    }

    pub fn parse(input: &[u8]) -> (r: WResult<'_, SkeletonTrackSetReferenceFragment>)
        ensures
            input@.len() >= 12 ==> r == Ok::<(&[u8], SkeletonTrackSetReferenceFragment), WldDocError>((r->Ok_0.0, Self::decode(input@)))
                && r->Ok_0.0@ == input@.skip(12),
            input@.len() < 12 ==> r == Err::<(&[u8], SkeletonTrackSetReferenceFragment), WldDocError>(too_short_spec(input@)),
    {
        let (i, name_reference) = match StringReference::parse(input) {
            Ok(x) => x,
            Err(e) => return Err(e),
        };
        let (i, reference) = match FragmentRef::parse(i) {
            Ok(x) => x,
            Err(_) => return Err(too_short(input)),
        };
        let params1 = match u32_field(i, 0) {
            Some(v) => v,
            None => return Err(too_short(input)),
        };
        proof {
            assert(i@ =~= input@.skip(8));
        }
        Ok((rest(i, 4), SkeletonTrackSetReferenceFragment { name_reference, reference, params1 }))
    }

    pub fn into_bytes(&self) -> (r: Vec<u8>)
        ensures
            r@ == self.spec_to_bytes(),
    {
        let mut out = self.name_reference.into_bytes();
        let b = self.reference.into_bytes();
        let ghost start = out@;
        let mut k: usize = 0;
        while k < b.len()
            invariant
                k <= b@.len(),
                out@ == start + b@.take(k as int),
            decreases b@.len() - k,
        {
            out.push(b[k]);
            k = k + 1;
            proof {
                assert(out@ =~= start + b@.take(k as int));
            }
        }
        push_u32(&mut out, self.params1);
        proof {
            assert(b@.take(k as int) =~= b@);
            assert(out@ =~= self.spec_to_bytes());
        }
        out
    }
}

impl Fragment for SkeletonTrackSetReferenceFragment {
    open spec fn spec_into_bytes(&self) -> Seq<u8> {
        self.spec_to_bytes()
    }

    open spec fn spec_serializable(&self) -> bool {
        true
    }

    fn into_bytes(&self) -> (r: Vec<u8>) {
        self.into_bytes()
    }

    fn name_ref(&self) -> (r: &StringReference)
        ensures
            *r == self.name_reference,
    {
        &self.name_reference
    }

    fn type_id(&self) -> (r: u32)
        ensures
            r == 0x11,
    {
        Self::TYPE_ID
    }
}

/// Reading back a serialized fragment gives the same fragment, whatever follows it.
pub proof fn lemma_skeleton_track_set_reference_round_trip(f: SkeletonTrackSetReferenceFragment, tail: Seq<u8>)
    requires
        f.reference.wf(),
    ensures
        SkeletonTrackSetReferenceFragment::decode(f.spec_to_bytes() + tail) == f,
        f.spec_to_bytes().len() == 12,
{
    lemma_ref_fields(f.name_reference, f.reference, f.params1, tail);
}

/// Serializing the fragment read from `s` gives back the bytes it was read from.
pub proof fn lemma_skeleton_track_set_reference_bytes(s: Seq<u8>)
    requires
        s.len() >= 12,
    ensures
        SkeletonTrackSetReferenceFragment::decode(s).spec_to_bytes() == s.take(12),
{
    lemma_ref_fields_bytes(s);
}

} // verus!
