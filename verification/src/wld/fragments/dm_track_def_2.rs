//! The animated vertices fragment: the vertex positions of each frame of a
//! mesh animation.
use vstd::prelude::*;
use crate::bytes::{le_u16, le_u32, le_i16, u16_at, u32_at, i16_at, i32_at, push_u16, push_u32, push_i16};
use crate::wld::parse::{WResult, WldDocError, u16_field, u32_field, i16_field, rest, too_short};
use crate::wld::fragments::{Fragment, StringReference, too_short_spec};

verus! {

/// Vertex positions for each frame of an animated mesh, scaled by
/// `1 / 2^scale`.
///
/// **Type ID:** 0x37
#[derive(Debug, PartialEq)]
pub struct DmTrackDef2 {
    pub name_reference: StringReference,
    /// _Unknown_ - usually 0.
    pub flags: u32,
    /// The number of vertices in each frame.
    pub vertex_count: u16,
    /// The number of frames.
    pub frame_count: u16,
    /// _Unknown_.
    pub param1: u16,
    /// _Unknown_.
    pub param2: u16,
    /// The scale of the positions.
    pub scale: u16,
    /// For each frame, the position of each vertex.
    pub frames: Vec<Vec<(i16, i16, i16)>>,
    /// _Unknown_.
    pub size6: u16,
}

/// The vertex stored at `pos`.
pub open spec fn vertex_at(s: Seq<u8>, pos: int) -> (i16, i16, i16) {
    (i16_at(s, pos), i16_at(s, pos + 2), i16_at(s, pos + 4))
}

/// The `n` vertices of the frame stored from `pos`.
pub open spec fn frame_at(s: Seq<u8>, pos: int, n: nat) -> Seq<(i16, i16, i16)> {
    Seq::new(n, |k: int| vertex_at(s, pos + 6 * k))
}

/// The stored form of one vertex.
pub open spec fn vertex_bytes(v: (i16, i16, i16)) -> Seq<u8> {
    le_i16(v.0) + le_i16(v.1) + le_i16(v.2)
}

/// The stored form of a frame: its vertices one after another.
pub open spec fn frame_bytes(f: Seq<(i16, i16, i16)>) -> Seq<u8>
    decreases f.len(),
{
    if f.len() == 0 {
        Seq::empty()
    } else {
        frame_bytes(f.drop_last()) + vertex_bytes(f.last())
    }
}

/// The stored form of the frames, one after another.
pub open spec fn frames_bytes(fs: Seq<Vec<(i16, i16, i16)>>) -> Seq<u8>
    decreases fs.len(),
{
    if fs.len() == 0 {
        Seq::empty()
    } else {
        frames_bytes(fs.drop_last()) + frame_bytes(fs.last()@)
    }
}

/// Where the frames end, for `vc` vertices and `fc` frames.
pub open spec fn frames_end(vc: u16, fc: u16) -> int {
    18 + 6 * vc * fc
}

/// Whether `s` is long enough for the fragment stored at its start.
pub open spec fn dm_track_def_2_fits(s: Seq<u8>) -> bool {
    s.len() >= 18 && s.len() >= frames_end(u16_at(s, 8), u16_at(s, 10)) + 2
}

/// Reads the `n` vertices of the frame stored from `pos`.
fn parse_frame(input: &[u8], pos: usize, n: u16) -> (r: Vec<(i16, i16, i16)>)
    requires
        pos + 6 * n <= input@.len(),
    ensures
        r@ == frame_at(input@, pos as int, n as nat),
{
    let mut out: Vec<(i16, i16, i16)> = Vec::new();
    let mut k: usize = 0;
    while k < n as usize
        invariant
            k <= n,
            pos + 6 * n <= input@.len(),
            out@ == frame_at(input@, pos as int, k as nat),
        decreases n - k,
    {
        let len = input.len();
        assert(pos + 6 * k + 6 <= len) by (nonlinear_arith)
            requires
                k < n,
                pos + 6 * n <= len,
        ;
        let at = pos + 6 * k;
        let x = match i16_field(input, at) {
            Some(v) => v,
            None => 0,
        };
        let y = match i16_field(input, at + 2) {
            Some(v) => v,
            None => 0,
        };
        let z = match i16_field(input, at + 4) {
            Some(v) => v,
            None => 0,
        };
        out.push((x, y, z));
        k = k + 1;
        proof {
            assert(out@ =~= frame_at(input@, pos as int, k as nat));
        }
    }
    out
}

/// Appends the stored form of a frame.
fn push_frame(out: &mut Vec<u8>, f: &Vec<(i16, i16, i16)>)
    ensures
        final(out)@ == old(out)@ + frame_bytes(f@),
{
    let mut k: usize = 0;
    while k < f.len()
        invariant
            k <= f@.len(),
            out@ == old(out)@ + frame_bytes(f@.take(k as int)),
        decreases f@.len() - k,
    {
        let v = f[k];
        push_i16(out, v.0);
        push_i16(out, v.1);
        push_i16(out, v.2);
        k = k + 1;
        proof {
            assert(f@.take(k as int).drop_last() =~= f@.take(k - 1));
            assert(out@ =~= old(out)@ + frame_bytes(f@.take(k as int)));
        }
    }
    proof {
        assert(f@.take(k as int) =~= f@);
    }
}

impl DmTrackDef2 {
    pub const TYPE_ID: u32 = 0x37;

    /// The stored form: the header fields, the frames, then `size6`.
    pub open spec fn spec_to_bytes(&self) -> Seq<u8> {
        self.name_reference.spec_to_bytes() + le_u32(self.flags) + le_u16(self.vertex_count) + le_u16(
            self.frame_count,
        ) + le_u16(self.param1) + le_u16(self.param2) + le_u16(self.scale) + frames_bytes(self.frames@)
            + le_u16(self.size6)
    }

    pub fn parse(input: &[u8]) -> (r: WResult<'_, DmTrackDef2>)
        ensures
            dm_track_def_2_fits(input@) ==> (r matches Ok((rest, f)) && {
                let s = input@;
                let vc = u16_at(s, 8);
                let fc = u16_at(s, 10);
                let e = frames_end(vc, fc);
                &&& f.name_reference.0 == i32_at(s, 0)
                &&& f.flags == u32_at(s, 4)
                &&& f.vertex_count == vc
                &&& f.frame_count == fc
                &&& f.param1 == u16_at(s, 12)
                &&& f.param2 == u16_at(s, 14)
                &&& f.scale == u16_at(s, 16)
                &&& f.frames@.len() == fc
                &&& forall|j: int| 0 <= j < fc ==> #[trigger] f.frames@[j]@ == frame_at(s, 18 + 6 * vc * j, vc as nat)
                &&& f.size6 == u16_at(s, e)
                &&& rest@ == s.skip(e + 2)
            }),
            !dm_track_def_2_fits(input@) ==> r == Err::<(&[u8], DmTrackDef2), WldDocError>(too_short_spec(input@)),
    {
        let name_reference = match StringReference::parse(input) {
            Ok((_, x)) => x,
            Err(e) => return Err(e),
        };
        let flags = match u32_field(input, 4) {
            Some(v) => v,
            None => return Err(too_short(input)),
        };
        let vertex_count = match u16_field(input, 8) {
            Some(v) => v,
            None => return Err(too_short(input)),
        };
        let frame_count = match u16_field(input, 10) {
            Some(v) => v,
            None => return Err(too_short(input)),
        };
        let param1 = match u16_field(input, 12) {
            Some(v) => v,
            None => return Err(too_short(input)),
        };
        let param2 = match u16_field(input, 14) {
            Some(v) => v,
            None => return Err(too_short(input)),
        };
        let scale = match u16_field(input, 16) {
            Some(v) => v,
            None => return Err(too_short(input)),
        };
        let frame_size: u64 = 6 * vertex_count as u64;
        assert(frame_size * frame_count <= 6 * 0xffff * 0xffff) by (nonlinear_arith)
            requires
                frame_size == 6 * vertex_count,
                vertex_count <= 0xffff,
                frame_count <= 0xffff,
        ;
        let total: u64 = 18 + frame_size * frame_count as u64 + 2;
        assert(total == frames_end(vertex_count, frame_count) + 2) by (nonlinear_arith)
            requires
                frame_size == 6 * vertex_count,
                total == 18 + frame_size * frame_count + 2,
        ;
        let len = input.len();
        if (len as u64) < total {
            return Err(too_short(input));
        }
        let ghost s = input@;
        let mut frames: Vec<Vec<(i16, i16, i16)>> = Vec::new();
        let mut at: usize = 18;
        let mut j: u16 = 0;
        while j < frame_count
            invariant
                j <= frame_count,
                s == input@,
                len == input@.len(),
                total == frames_end(vertex_count, frame_count) + 2,
                total <= len,
                frame_size == 6 * vertex_count,
                at == 18 + 6 * vertex_count * j,
                frames@.len() == j,
                forall|i: int| 0 <= i < j ==> #[trigger] frames@[i]@ == frame_at(s, 18 + 6 * vertex_count * i, vertex_count as nat),
            decreases frame_count - j,
        {
            assert(at + 6 * vertex_count <= len) by (nonlinear_arith)
                requires
                    j < frame_count,
                    at == 18 + 6 * vertex_count * j,
                    18 + 6 * vertex_count * frame_count + 2 <= len,
            ;
            let f = parse_frame(input, at, vertex_count);
            frames.push(f);
            assert(18 + 6 * vertex_count * (j + 1) == at + 6 * vertex_count) by (nonlinear_arith)
                requires
                    at == 18 + 6 * vertex_count * j,
            ;
            at = at + 6 * vertex_count as usize;
            j = j + 1;
        }
        let size6 = match u16_field(input, at) {
            Some(v) => v,
            None => return Err(too_short(input)),
        };
        Ok((rest(input, at + 2), DmTrackDef2 {
            name_reference,
            flags,
            vertex_count,
            frame_count,
            param1,
            param2,
            scale,
            frames,
            size6,
        }))
    }

    pub fn to_bytes(&self) -> (r: Vec<u8>)
        ensures
            r@ == self.spec_to_bytes(),
    {
        let mut out = self.name_reference.into_bytes();
        push_u32(&mut out, self.flags);
        push_u16(&mut out, self.vertex_count);
        push_u16(&mut out, self.frame_count);
        push_u16(&mut out, self.param1);
        push_u16(&mut out, self.param2);
        push_u16(&mut out, self.scale);
        let ghost start = out@;
        let mut j: usize = 0;
        while j < self.frames.len()
            invariant
                j <= self.frames@.len(),
                out@ == start + frames_bytes(self.frames@.take(j as int)),
            decreases self.frames@.len() - j,
        {
            push_frame(&mut out, &self.frames[j]);
            j = j + 1;
            proof {
                assert(self.frames@.take(j as int).drop_last() =~= self.frames@.take(j - 1));
                assert(out@ =~= start + frames_bytes(self.frames@.take(j as int)));
            }
        }
        proof {
            assert(self.frames@.take(j as int) =~= self.frames@);
        }
        push_u16(&mut out, self.size6);
        out
    }
}

impl Fragment for DmTrackDef2 {
    open spec fn spec_into_bytes(&self) -> Seq<u8> {
        self.spec_to_bytes()
    }

    open spec fn spec_serializable(&self) -> bool {
        true
    }

    fn into_bytes(&self) -> (r: Vec<u8>) {
        self.to_bytes()
    }

    fn name_ref(&self) -> (r: &StringReference)
        ensures
            *r == self.name_reference,
    {
        &self.name_reference
    }

    fn type_id(&self) -> (r: u32)
        ensures
            r == 0x37,
    {
        Self::TYPE_ID
    }
}

} // verus!
