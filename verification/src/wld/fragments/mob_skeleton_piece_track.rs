//! The track definition fragment: the rotation and shift of a skeleton piece.
use vstd::prelude::*;
use crate::bytes::{le_u32, le_i16, u32_at, i16_at, i32_at, push_u32, push_i16};
use crate::wld::parse::{WResult, WldDocError, u32_field, i16_field, rest, too_short, append_bytes};
use crate::wld::fragments::{Fragment, StringReference, too_short_spec};

verus! {

/// The transform of one skeleton piece: a rotation (numerators over a
/// common denominator) and a shift (likewise).
///
/// **Type ID:** 0x12
#[derive(Debug, PartialEq)]
pub struct MobSkeletonPieceTrackFragment {
    pub name_reference: StringReference,
    /// Bit 3 set: extra data may follow.
    pub flags: u32,
    /// The number of frames.
    pub size: u32,
    pub rotate_denominator: i16,
    pub rotate_x_numerator: i16,
    pub rotate_y_numerator: i16,
    pub rotate_z_numerator: i16,
    pub shift_x_numerator: i16,
    pub shift_y_numerator: i16,
    pub shift_z_numerator: i16,
    pub shift_denominator: i16,
    /// The bytes after the fixed fields, kept as they are (only when bit 3 of
    /// the flags is set).
    pub data2: Option<Vec<u8>>,
}

/// Whether `s` can be read as this fragment: 28 bytes of fixed fields, and
/// more only when bit 3 of the flags is set.
pub open spec fn mob_skeleton_piece_track_readable(s: Seq<u8>) -> bool {
    s.len() > 28 ==> u32_at(s, 4) & 0x08 == 0x08
}

impl MobSkeletonPieceTrackFragment {
    pub const TYPE_ID: u32 = 0x12;

    pub open spec fn spec_to_bytes(&self) -> Seq<u8> {
        self.name_reference.spec_to_bytes() + le_u32(self.flags) + le_u32(self.size) + le_i16(
            self.rotate_denominator,
        ) + le_i16(self.rotate_x_numerator) + le_i16(self.rotate_y_numerator) + le_i16(self.rotate_z_numerator)
            + le_i16(self.shift_x_numerator) + le_i16(self.shift_y_numerator) + le_i16(self.shift_z_numerator)
            + le_i16(self.shift_denominator) + match self.data2 {
            Some(d) => d@,
            None => Seq::empty(),
        }
    }

    /// Reads the fixed fields; what follows them is kept as extra data when
    /// bit 3 of the flags is set. Bytes that follow otherwise would have no
    /// field to go to; such input is ruled out.
    pub fn parse(input: &[u8]) -> (r: WResult<'_, MobSkeletonPieceTrackFragment>)
        requires
            mob_skeleton_piece_track_readable(input@),
        ensures
            input@.len() >= 28 ==> (r matches Ok((rest, f)) && {
                let s = input@;
                &&& f.name_reference.0 == i32_at(s, 0)
                &&& f.flags == u32_at(s, 4)
                &&& f.size == u32_at(s, 8)
                &&& f.rotate_denominator == i16_at(s, 12)
                &&& f.rotate_x_numerator == i16_at(s, 14)
                &&& f.rotate_y_numerator == i16_at(s, 16)
                &&& f.rotate_z_numerator == i16_at(s, 18)
                &&& f.shift_x_numerator == i16_at(s, 20)
                &&& f.shift_y_numerator == i16_at(s, 22)
                &&& f.shift_z_numerator == i16_at(s, 24)
                &&& f.shift_denominator == i16_at(s, 26)
                &&& (s.len() > 28 ==> (f.data2 matches Some(d) && d@ == s.skip(28)))
                &&& (s.len() == 28 ==> f.data2 is None)
                &&& rest@.len() == 0
            }),
            input@.len() < 28 ==> r == Err::<(&[u8], MobSkeletonPieceTrackFragment), WldDocError>(
                too_short_spec(input@),
            ),
    {
        if input.len() < 28 {
            return Err(too_short(input));
        }
        let name_reference = match StringReference::parse(input) {
            Ok((_, x)) => x,
            Err(e) => return Err(e),
        };
        let flags = match u32_field(input, 4) {
            Some(v) => v,
            None => return Err(too_short(input)),
        };
        let size = match u32_field(input, 8) {
            Some(v) => v,
            None => return Err(too_short(input)),
        };
        let mut vals: [i16; 8] = [0; 8];
        let mut k: usize = 0;
        while k < 8
            invariant
                k <= 8,
                input@.len() >= 28,
                forall|i: int| 0 <= i < k ==> #[trigger] vals@[i] == i16_at(input@, 12 + 2 * i),
            decreases 8 - k,
        {
            let v = match i16_field(input, 12 + 2 * k) {
                Some(v) => v,
                None => 0,
            };
            vals[k] = v;
            k = k + 1;
        }
        let data2 = if input.len() > 28 && (flags & 0x08 == 0x08) {
            let mut d: Vec<u8> = Vec::new();
            let (_, tail) = input.split_at(28);
            append_bytes(&mut d, tail);
            Some(d)
        } else {
            None
        };
        Ok((rest(input, input.len()), MobSkeletonPieceTrackFragment {
            name_reference,
            flags,
            size,
            rotate_denominator: vals[0],
            rotate_x_numerator: vals[1],
            rotate_y_numerator: vals[2],
            rotate_z_numerator: vals[3],
            shift_x_numerator: vals[4],
            shift_y_numerator: vals[5],
            shift_z_numerator: vals[6],
            shift_denominator: vals[7],
            data2,
        }))
    }
}

impl Fragment for MobSkeletonPieceTrackFragment {
    open spec fn spec_into_bytes(&self) -> Seq<u8> {
        self.spec_to_bytes()
    }

    open spec fn spec_serializable(&self) -> bool {
        true
    }

    fn into_bytes(&self) -> (r: Vec<u8>) {
        let mut out = self.name_reference.into_bytes();
        push_u32(&mut out, self.flags);
        push_u32(&mut out, self.size);
        push_i16(&mut out, self.rotate_denominator);
        push_i16(&mut out, self.rotate_x_numerator);
        push_i16(&mut out, self.rotate_y_numerator);
        push_i16(&mut out, self.rotate_z_numerator);
        push_i16(&mut out, self.shift_x_numerator);
        push_i16(&mut out, self.shift_y_numerator);
        push_i16(&mut out, self.shift_z_numerator);
        push_i16(&mut out, self.shift_denominator);
        match &self.data2 {
            Some(d) => append_bytes(&mut out, d.as_slice()),
            None => {
                proof {
                    assert(out@ + Seq::<u8>::empty() =~= out@);
                }
            },
        }
        out
    }

    fn name_ref(&self) -> (r: &StringReference)
        ensures
            *r == self.name_reference,
    {
        &self.name_reference
    }

    fn type_id(&self) -> (r: u32)
        ensures
            r == 0x12,
    {
        Self::TYPE_ID
    }
}

} // verus!
