//! The light definition fragment (0x1b) and its flags.
use vstd::prelude::*;
use crate::bytes::{le_u32, u32_at, push_u32, i32_bits, bits_to_i32, i32_to_bits, lemma_i32_bits,
    lemma_bits_i32};
use crate::wld::parse::{WResult, u32_field, rest, too_short, WldDocError, u32s_bytes, push_u32s};
use crate::wld::words::{words_of, word, word_list, word_triples, word_name, triples, flat3, push_words,
    push_triples, lemma_triples_flat3, lemma_flat3_triples};
use crate::wld::fragments::{Fragment, StringReference, too_short_spec};

verus! {

/// The flags of a light definition.
#[derive(Debug, Clone, Copy, PartialEq, Eq, Structural)]
pub struct LightDefFlags(pub u32);

impl LightDefFlags {
    const HAS_CURRENT_FRAME: u32 = 0x01;
    const HAS_SLEEP: u32 = 0x02;
    const HAS_LIGHT_LEVELS: u32 = 0x04;
    const SKIP_FRAMES: u32 = 0x08;
    const HAS_COLOR: u32 = 0x10;

    fn parse(input: &[u8]) -> (r: WResult<'_, Self>)
        ensures
            input@.len() >= 4 ==> (r matches Ok((rest, f)) && f.0 == u32_at(input@, 0) && rest@ == input@.skip(4)),
            input@.len() < 4 ==> r is Err,
    {
        match u32_field(input, 0) {
            Some(v) => Ok((rest(input, 4), Self(v))),
            None => Err(too_short(input)),
        }
    }

    fn into_bytes(&self) -> (r: Vec<u8>)
        ensures
            r@ == le_u32(self.0),
    {
        let mut out = Vec::new();
        push_u32(&mut out, self.0);
        out
    }

    /// Whether a current frame follows.
    pub fn has_current_frame(&self) -> (r: bool)
        ensures
            r == (self.0 & 0x01 == 0x01),
    {
        self.0 & Self::HAS_CURRENT_FRAME == Self::HAS_CURRENT_FRAME
    }

    /// Whether a sleep time follows.
    pub fn has_sleep(&self) -> (r: bool)
        ensures
            r == (self.0 & 0x02 == 0x02),
    {
        self.0 & Self::HAS_SLEEP == Self::HAS_SLEEP
    }

    /// Whether light levels follow.
    pub fn has_light_levels(&self) -> (r: bool)
        ensures
            r == (self.0 & 0x04 == 0x04),
    {
        self.0 & Self::HAS_LIGHT_LEVELS == Self::HAS_LIGHT_LEVELS
    }

    /// Whether frames may be skipped.
    pub fn skip_frames(&self) -> (r: bool)
        ensures
            r == (self.0 & 0x08 == 0x08),
    {
        self.0 & Self::SKIP_FRAMES == Self::SKIP_FRAMES
    }

    /// Whether colors follow.
    pub fn has_color(&self) -> (r: bool)
        ensures
            r == (self.0 & 0x10 == 0x10),
    {
        self.0 & Self::HAS_COLOR == Self::HAS_COLOR
    }

    /// The raw flag bits.
    pub fn to_u32(&self) -> (r: u32)
        ensures
            r == self.0,
    {
        self.0
    }
}

/// A light's definition: its level, or color, in each of its frames. Levels
/// and colors are kept as the bits of their `f32`s.
///
/// **Type ID:** 0x1b
#[derive(Debug, PartialEq)]
pub struct LightDef {
    pub name_reference: StringReference,
    pub flags: LightDefFlags,
    pub frame_count: u32,
    /// There when bit 0 of the flags is set.
    pub current_frame: Option<u32>,
    /// The milliseconds between frames; there when bit 1 of the flags is set.
    pub sleep: Option<u32>,
    /// One level per frame; there when bit 2 of the flags is set.
    pub light_levels: Option<Vec<u32>>,
    /// One color (red, green, blue) per frame; there when bit 4 of the flags
    /// is set.
    pub colors: Option<Vec<(u32, u32, u32)>>,
}

impl LightDef {
    pub const TYPE_ID: u32 = 0x1b;

    /// Where each optional part of the definition held by `w` begins, and
    /// (last) where it ends: the current frame, the sleep, the levels (a
    /// word per frame) and the colors (three words per frame), each there as
    /// its flag bit says.
    pub open spec fn offsets(w: Seq<u32>) -> Seq<int> {
        let flags = w[1];
        let n = w[2] as int;
        let p0 = 3int;
        let p1 = if flags & 0x01 == 0x01 { p0 + 1 } else { p0 };
        let p2 = if flags & 0x02 == 0x02 { p1 + 1 } else { p1 };
        let p3 = if flags & 0x04 == 0x04 { p2 + n } else { p2 };
        let p4 = if flags & 0x10 == 0x10 { p3 + 3 * n } else { p3 };
        seq![p0, p1, p2, p3, p4]
    }

    /// How many words the definition held by `w` takes, if `w` holds it all.
    pub open spec fn size(w: Seq<u32>) -> Option<nat> {
        if w.len() < 3 || w.len() < Self::offsets(w)[4] {
            None
        } else {
            Some(Self::offsets(w)[4] as nat)
        }
    }

    /// Whether `f` is the definition held by `w`.
    pub open spec fn read_from(w: Seq<u32>, f: LightDef) -> bool {
        let flags = w[1];
        let n = w[2];
        let o = Self::offsets(w);
        &&& f.name_reference == word_name(w[0])
        &&& f.flags == LightDefFlags(flags)
        &&& f.frame_count == n
        &&& f.current_frame == if flags & 0x01 == 0x01 { Some(w[o[0]]) } else { None }
        &&& f.sleep == if flags & 0x02 == 0x02 { Some(w[o[1]]) } else { None }
        &&& if flags & 0x04 == 0x04 {
            f.light_levels matches Some(v) && v@ == w.subrange(o[2], o[2] + n)
        } else {
            f.light_levels is None
        }
        &&& if flags & 0x10 == 0x10 {
            f.colors matches Some(v) && v@ == triples(w.skip(o[3]), n as nat)
        } else {
            f.colors is None
        }
    }

    /// The words of the stored form.
    pub open spec fn words(&self) -> Seq<u32> {
        seq![i32_bits(self.name_reference.0), self.flags.0, self.frame_count]
            + (match self.current_frame { Some(x) => seq![x], None => Seq::empty() })
            + (match self.sleep { Some(x) => seq![x], None => Seq::empty() })
            + (match self.light_levels { Some(v) => v@, None => Seq::empty() })
            + (match self.colors { Some(v) => flat3(v@), None => Seq::empty() })
    }

    pub open spec fn spec_to_bytes(&self) -> Seq<u8> {
        u32s_bytes(self.words())
    }

    /// Each optional part is there exactly when its flag bit is set, and each
    /// list has a value per frame.
    pub open spec fn wf(&self) -> bool {
        let flags = self.flags.0;
        &&& (self.current_frame is Some <==> flags & 0x01 == 0x01)
        &&& (self.sleep is Some <==> flags & 0x02 == 0x02)
        &&& (self.light_levels is Some <==> flags & 0x04 == 0x04)
        &&& (self.colors is Some <==> flags & 0x10 == 0x10)
        &&& (self.light_levels matches Some(v) ==> v@.len() == self.frame_count)
        &&& (self.colors matches Some(v) ==> v@.len() == self.frame_count)
    }

    pub fn parse(input: &[u8]) -> (r: WResult<'_, LightDef>)
        ensures
            match Self::size(words_of(input@)) {
                Some(n) => r matches Ok((rest, f)) && Self::read_from(words_of(input@), f)
                    && rest@ == input@.skip(4 * n as int),
                None => r == Err::<(&[u8], LightDef), WldDocError>(too_short_spec(input@)),
            },
    {
        let ghost w = words_of(input@);
        let total = input.len() / 4;
        let head = match word_list(input, 0, 3) {
            Some(v) => v,
            None => return Err(too_short(input)),
        };
        let flags = head[1];
        let n = head[2];
        let ghost o = Self::offsets(w);
        let mut p: usize = 3;
        let current_frame = if flags & 0x01 == 0x01 {
            let x = match word(input, p) {
                Some(x) => x,
                None => return Err(too_short(input)),
            };
            p = p + 1;
            Some(x)
        } else {
            None
        };
        assert(p == o[1]);
        let sleep = if flags & 0x02 == 0x02 {
            let x = match word(input, p) {
                Some(x) => x,
                None => return Err(too_short(input)),
            };
            p = p + 1;
            Some(x)
        } else {
            None
        };
        assert(p == o[2]);
        let light_levels = if flags & 0x04 == 0x04 {
            let v = match word_list(input, p, n) {
                Some(v) => v,
                None => return Err(too_short(input)),
            };
            assert(p + n <= total);
            p = p + n as usize;
            Some(v)
        } else {
            None
        };
        assert(p == o[3]);
        let colors = if flags & 0x10 == 0x10 {
            let v = match word_triples(input, p, n) {
                Some(v) => v,
                None => return Err(too_short(input)),
            };
            assert(p + 3 * n <= total);
            p = p + 3 * n as usize;
            Some(v)
        } else {
            None
        };
        assert(p == o[4]);
        assert(4 * p <= input@.len()) by (nonlinear_arith)
            requires
                p <= input@.len() / 4,
        ;
        let f = LightDef {
            name_reference: StringReference::new(bits_to_i32(head[0])),
            flags: LightDefFlags(flags),
            frame_count: n,
            current_frame,
            sleep,
            light_levels,
            colors,
        };
        Ok((rest(input, 4 * p), f))
    }
}

impl Fragment for LightDef {
    open spec fn spec_into_bytes(&self) -> Seq<u8> {
        self.spec_to_bytes()
    }

    open spec fn spec_serializable(&self) -> bool {
        true
    }

    fn into_bytes(&self) -> (r: Vec<u8>) {
        let mut w: Vec<u32> = vec![i32_to_bits(self.name_reference.0), self.flags.0, self.frame_count];
        match self.current_frame {
            Some(x) => w.push(x),
            None => {},
        }
        match self.sleep {
            Some(x) => w.push(x),
            None => {},
        }
        let ghost a = w@;
        match &self.light_levels {
            Some(v) => push_words(&mut w, v),
            None => {},
        }
        let ghost b = w@;
        match &self.colors {
            Some(v) => push_triples(&mut w, v),
            None => {},
        }
        let mut out: Vec<u8> = Vec::new();
        push_u32s(&mut out, &w);
        proof {
            assert(b =~= a + (match self.light_levels { Some(v) => v@, None => Seq::<u32>::empty() }));
            assert(w@ =~= b + (match self.colors { Some(v) => flat3(v@), None => Seq::<u32>::empty() }));
            assert(w@ =~= self.words());
        }
        out
    }

    fn name_ref(&self) -> (r: &StringReference)
        ensures
            *r == self.name_reference,
    {
        &self.name_reference
    }

    fn type_id(&self) -> (r: u32)
        ensures
            r == 0x1b,
    {
        Self::TYPE_ID
    }
}

/// Reading back the words of a well-formed definition gives the same
/// definition, whatever follows them.
pub proof fn lemma_light_def_round_trip(f: LightDef, tail: Seq<u32>)
    requires
        f.wf(),
    ensures
        LightDef::size(f.words() + tail) == Some(f.words().len()),
        LightDef::read_from(f.words() + tail, f),
{
    lemma_i32_bits(f.name_reference.0);
    let n = f.frame_count as int;
    let h = seq![i32_bits(f.name_reference.0), f.flags.0, f.frame_count];
    let c = match f.current_frame { Some(x) => seq![x], None => Seq::<u32>::empty() };
    let s = match f.sleep { Some(x) => seq![x], None => Seq::<u32>::empty() };
    let l = match f.light_levels { Some(v) => v@, None => Seq::<u32>::empty() };
    let k = match f.colors { Some(v) => flat3(v@), None => Seq::<u32>::empty() };
    match f.colors {
        Some(v) => lemma_triples_flat3(v@, tail),
        None => {},
    }
    let w = f.words() + tail;
    assert(w =~= h + c + s + l + k + tail);
    let o = LightDef::offsets(w);
    assert(o[1] == 3 + c.len());
    assert(o[2] == 3 + c.len() + s.len());
    assert(o[3] == 3 + c.len() + s.len() + l.len());
    assert(o[4] == 3 + c.len() + s.len() + l.len() + k.len());
    if f.flags.0 & 0x01 == 0x01 {
        assert(w[o[0]] == c[0]);
    }
    if f.flags.0 & 0x02 == 0x02 {
        assert(w[o[1]] == s[0]);
    }
    if f.flags.0 & 0x04 == 0x04 {
        assert(w.subrange(o[2], o[2] + n) =~= l);
    }
    if f.flags.0 & 0x10 == 0x10 {
        assert(w.skip(o[3]) =~= k + tail);
    }
}

/// The words of the definition read from `w` are the words it was read
/// from, and it is well formed.
pub proof fn lemma_light_def_words(w: Seq<u32>, f: LightDef)
    requires
        LightDef::size(w) is Some,
        LightDef::read_from(w, f),
    ensures
        f.words() == w.take(LightDef::size(w)->0 as int),
        f.wf(),
{
    lemma_bits_i32(w[0]);
    let o = LightDef::offsets(w);
    let n = w[2] as nat;
    if f.flags.0 & 0x10 == 0x10 {
        lemma_flat3_triples(w.skip(o[3]), n);
        assert(w.skip(o[3]).take(3 * n as int) =~= w.subrange(o[3], o[4]));
    }
    assert(f.words() =~= w.take(LightDef::size(w)->0 as int));
}

} // verus!
