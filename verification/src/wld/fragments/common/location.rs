//! A placement in space: coordinates and rotations, stored as seven words.
use vstd::prelude::*;
use crate::wld::parse::{WResult, WldDocError, rest, too_short, u32s_bytes, push_u32s};
use crate::wld::words::{words_of, word_list};
use crate::wld::fragments::too_short_spec;

verus! {

/// A location (LOCATION). The six coordinates and rotations are kept as the
/// bits of their `f32`s.
#[derive(Debug, Clone, Copy, PartialEq, Eq, Structural)]
pub struct Location {
    /// In main zone files the zone's minimum x; for placed objects the
    /// object's x.
    pub x: u32,
    pub y: u32,
    pub z: u32,
    /// The rotation about the z axis, in degrees scaled by 512 / 360.
    pub rotate_z: u32,
    pub rotate_y: u32,
    pub rotate_x: u32,
    pub unknown: u32,
}

impl Location {
    /// The location held by the seven words of `w` from `p` on.
    pub open spec fn at(w: Seq<u32>, p: int) -> Location {
        Location {
            x: w[p],
            y: w[p + 1],
            z: w[p + 2],
            rotate_z: w[p + 3],
            rotate_y: w[p + 4],
            rotate_x: w[p + 5],
            unknown: w[p + 6],
        }
    }

    /// The stored words: x, y, z, the rotations about z, y and x, unknown.
    pub open spec fn words(&self) -> Seq<u32> {
        seq![self.x, self.y, self.z, self.rotate_z, self.rotate_y, self.rotate_x, self.unknown]
    }

    pub fn parse(input: &[u8]) -> (r: WResult<'_, Location>)
        ensures
            words_of(input@).len() >= 7 ==> r == Ok::<(&[u8], Location), WldDocError>(
                (r->Ok_0.0, Self::at(words_of(input@), 0)),
            ) && r->Ok_0.0@ == input@.skip(28),
            words_of(input@).len() < 7 ==> r == Err::<(&[u8], Location), WldDocError>(too_short_spec(input@)),
    {
        let w = match word_list(input, 0, 7) {
            Some(w) => w,
            None => return Err(too_short(input)),
        };
        assert(28 <= input@.len()) by (nonlinear_arith)
            requires
                7 <= input@.len() / 4,
        ;
        Ok((rest(input, 28), Location {
            x: w[0],
            y: w[1],
            z: w[2],
            rotate_z: w[3],
            rotate_y: w[4],
            rotate_x: w[5],
            unknown: w[6],
        }))
    }

    pub fn into_bytes(&self) -> (r: Vec<u8>)
        ensures
            r@ == u32s_bytes(self.words()),
    {
        let w: Vec<u32> = vec![self.x, self.y, self.z, self.rotate_z, self.rotate_y, self.rotate_x, self.unknown];
        let mut out: Vec<u8> = Vec::new();
        push_u32s(&mut out, &w);
        proof {
            assert(w@ =~= self.words());
            assert(out@ =~= u32s_bytes(self.words()));
        }
        out
    }
}

/// A location is read back from its words, whatever surrounds them.
pub proof fn lemma_location_round_trip(l: Location, pre: Seq<u32>, tail: Seq<u32>)
    ensures
        Location::at(pre + l.words() + tail, pre.len() as int) == l,
{
}

} // verus!
