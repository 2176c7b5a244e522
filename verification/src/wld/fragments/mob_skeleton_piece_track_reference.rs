//! The track fragment: a reference to a skeleton piece's transform, with its
//! playback flags.
use vstd::prelude::*;
use crate::bytes::{le_u32, u32_at, i32_at, push_u32};
use crate::wld::parse::{WResult, WldDocError, u32_field, rest, too_short, append_bytes};
use crate::wld::fragments::{Fragment, FragmentRef, StringReference, too_short_spec};

verus! {

/// A reference to a [MobSkeletonPieceTrackFragment] and how to play it.
///
/// **Type ID:** 0x13
#[derive(Debug, PartialEq)]
pub struct MobSkeletonPieceTrackReferenceFragment {
    pub name_reference: StringReference,
    /// The track definition.
    pub reference: FragmentRef,
    pub flags: TrackInstanceFlags,
    /// The time between frames, when the flags say one is stored.
    pub sleep: Option<u32>,
}

/// The playback flags of a track.
#[derive(Debug, Clone, Copy, PartialEq, Eq, Structural)]
pub struct TrackInstanceFlags(pub u32);

impl TrackInstanceFlags {
    const HAS_SLEEP: u32 = 0x01;
    const REVERSE: u32 = 0x02;
    const INTERPOLATE: u32 = 0x04;

    fn parse(input: &[u8]) -> (r: WResult<'_, Self>)
        ensures
            input@.len() >= 4 ==> (r matches Ok((rest, f)) && f.0 == u32_at(input@, 0) && rest@ == input@.skip(4)),
            input@.len() < 4 ==> r is Err,
    {
        match u32_field(input, 0) {
            Some(v) => Ok((rest(input, 4), Self(v))),
            None => Err(too_short(input)),
        }
    }

    fn into_bytes(&self) -> (r: Vec<u8>)
        ensures
            r@ == le_u32(self.0),
    {
        let mut out = Vec::new();
        push_u32(&mut out, self.0);
        out
    }

    /// Whether a sleep time is stored.
    pub fn has_sleep(&self) -> (r: bool)
        ensures
            r == (self.0 & 0x01 == 0x01),
    {
        self.0 & Self::HAS_SLEEP == Self::HAS_SLEEP
    }

    /// Whether the track plays backwards.
    pub fn reverse(&self) -> (r: bool)
        ensures
            r == (self.0 & 0x02 == 0x02),
    {
        self.0 & Self::REVERSE == Self::REVERSE
    }

    /// Whether frames are interpolated.
    pub fn interpolate(&self) -> (r: bool)
        ensures
            r == (self.0 & 0x04 == 0x04),
    {
        self.0 & Self::INTERPOLATE == Self::INTERPOLATE
    }
}

/// How many bytes the fragment stored at the start of `s` takes.
pub open spec fn track_reference_len(s: Seq<u8>) -> int {
    if u32_at(s, 8) & 0x01 == 0x01 { 16 } else { 12 }
}

impl MobSkeletonPieceTrackReferenceFragment {
    pub const TYPE_ID: u32 = 0x13;

    pub open spec fn spec_to_bytes(&self) -> Seq<u8> {
        self.name_reference.spec_to_bytes() + self.reference.spec_to_bytes() + le_u32(self.flags.0) + match self.sleep {
            Some(x) => le_u32(x),
            None => Seq::empty(),
        }
    }

    pub fn parse(input: &[u8]) -> (r: WResult<'_, MobSkeletonPieceTrackReferenceFragment>)
        ensures
            (input@.len() >= 12 && input@.len() >= track_reference_len(input@)) ==> (r matches Ok((rest, f)) && {
                let s = input@;
                &&& f.name_reference.0 == i32_at(s, 0)
                &&& f.reference == FragmentRef::spec_new(i32_at(s, 4))
                &&& f.flags.0 == u32_at(s, 8)
                &&& f.sleep == if u32_at(s, 8) & 0x01 == 0x01 { Some(u32_at(s, 12)) } else { None::<u32> }
                &&& rest@ == s.skip(track_reference_len(s))
            }),
            !(input@.len() >= 12 && input@.len() >= track_reference_len(input@)) ==> r
                == Err::<(&[u8], MobSkeletonPieceTrackReferenceFragment), WldDocError>(too_short_spec(input@)),
    {
        let name_reference = match StringReference::parse(input) {
            Ok((_, x)) => x,
            Err(e) => return Err(e),
        };
        let reference = match crate::wld::parse::i32_field(input, 4) {
            Some(v) => FragmentRef::new(v),
            None => return Err(too_short(input)),
        };
        let (i, flags) = match crate::wld::parse::u32_field(input, 8) {
            Some(v) => (12usize, TrackInstanceFlags(v)),
            None => return Err(too_short(input)),
        };
        if flags.has_sleep() {
            match u32_field(input, 12) {
                Some(v) => Ok((rest(input, 16), MobSkeletonPieceTrackReferenceFragment {
                    name_reference,
                    reference,
                    flags,
                    sleep: Some(v),
                })),
                None => Err(too_short(input)),
            }
        } else {
            Ok((rest(input, i), MobSkeletonPieceTrackReferenceFragment { name_reference, reference, flags, sleep: None }))
        }
    }
}

impl Fragment for MobSkeletonPieceTrackReferenceFragment {
    open spec fn spec_into_bytes(&self) -> Seq<u8> {
        self.spec_to_bytes()
    }

    open spec fn spec_serializable(&self) -> bool {
        true
    }

    fn into_bytes(&self) -> (r: Vec<u8>) {
        let mut out = self.name_reference.into_bytes();
        let b = self.reference.into_bytes();
        append_bytes(&mut out, b.as_slice());
        let f = self.flags.into_bytes();
        append_bytes(&mut out, f.as_slice());
        match self.sleep {
            Some(x) => push_u32(&mut out, x),
            None => {
                proof {
                    assert(out@ + Seq::<u8>::empty() =~= out@);
                }
            },
        }
        out
    }

    fn name_ref(&self) -> (r: &StringReference)
        ensures
            *r == self.name_reference,
    {
        &self.name_reference
    }

    fn type_id(&self) -> (r: u32)
        ensures
            r == 0x13,
    {
        Self::TYPE_ID
    }
}

} // verus!
