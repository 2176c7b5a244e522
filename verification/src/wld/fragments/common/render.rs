//! The render info record: how a sprite or wall is rendered, its parts
//! chosen by its flags.
use vstd::prelude::*;
use crate::wld::parse::{WResult, WldDocError, rest, too_short, u32s_bytes, push_u32s};
use crate::wld::words::{opt_word, read_opt, words_of, word, word_list, word_pairs, pairs, flat2, push_pairs, lemma_pairs_flat2,
    lemma_flat2_pairs};
use crate::wld::fragments::too_short_spec;
use crate::wld::fragments::common::render_info::RenderInfoFlags;

verus! {

/// How a texture is laid on a surface: an origin and two axes, kept as the
/// bits of their `f32` coordinates.
#[derive(Debug, Clone, Copy, PartialEq, Eq)]
pub struct UvInfo {
    pub uv_origin: (u32, u32, u32),
    pub u_axis: (u32, u32, u32),
    pub v_axis: (u32, u32, u32),
}

impl UvInfo {
    /// The record held by the nine words of `w` from `p` on.
    pub open spec fn at(w: Seq<u32>, p: int) -> UvInfo {
        UvInfo {
            uv_origin: (w[p], w[p + 1], w[p + 2]),
            u_axis: (w[p + 3], w[p + 4], w[p + 5]),
            v_axis: (w[p + 6], w[p + 7], w[p + 8]),
        }
    }

    /// The stored words: origin, u axis, v axis.
    pub open spec fn words(&self) -> Seq<u32> {
        seq![
            self.uv_origin.0,
            self.uv_origin.1,
            self.uv_origin.2,
            self.u_axis.0,
            self.u_axis.1,
            self.u_axis.2,
            self.v_axis.0,
            self.v_axis.1,
            self.v_axis.2,
        ]
    }
}

/// Texture coordinates given one by one, kept as the bits of their `f32`s.
#[derive(Debug, Clone, PartialEq, Eq)]
pub struct UvMap {
    pub entry_count: u32,
    /// `entry_count` (u, v) pairs.
    pub entries: Vec<(u32, u32)>,
}

/// The render info of a sprite or wall: its flags say which parts follow.
/// Brightness and ambient light are kept as the bits of their `f32`s.
#[derive(Debug, Clone, PartialEq, Eq)]
pub struct RenderInfo {
    pub flags: RenderInfoFlags,
    /// There when bit 0 of the flags is set.
    pub pen: Option<u32>,
    /// There when bit 1 of the flags is set.
    pub brightness: Option<u32>,
    /// There when bit 2 of the flags is set.
    pub scaled_ambient: Option<u32>,
    /// There when bit 3 of the flags is set.
    pub simple_sprite_reference: Option<u32>,
    /// There when bit 4 of the flags is set.
    pub uv_info: Option<UvInfo>,
    /// There when bit 5 of the flags is set.
    pub uv_map: Option<UvMap>,
}

/// How many words an optional part of `n` words takes under `flags`: `n`
/// when the part's flag bit `bit` is set, else none.
pub open spec fn part_len(flags: u32, bit: u32, n: int) -> int {
    if flags & bit == bit { n } else { 0 }
}

/// Where the texture axes of the render info stored at word `p` of `w`
/// begin: after the flags and the pen, brightness, ambient light and sprite
/// (a word each) that are there.
pub open spec fn render_info_uv_at(w: Seq<u32>, p: int) -> int {
    let flags = w[p];
    p + 1 + part_len(flags, 0x01, 1) + part_len(flags, 0x02, 1) + part_len(flags, 0x04, 1) + part_len(flags, 0x08, 1)
}

/// Where the texture coordinates of the render info stored at word `p`
/// begin: after the texture axes (nine words) if they are there.
pub open spec fn render_info_map_at(w: Seq<u32>, p: int) -> int {
    render_info_uv_at(w, p) + part_len(w[p], 0x10, 9)
}

/// Where the render info stored at word `p` ends: after the texture
/// coordinates (a count and two words per entry) if they are there.
pub open spec fn render_info_end(w: Seq<u32>, p: int) -> int {
    let q = render_info_map_at(w, p);
    if w[p] & 0x20 == 0x20 { q + 1 + 2 * w[q] } else { q }
}

/// Whether `w` holds the whole render info stored at word `p`.
pub open spec fn render_info_fits(w: Seq<u32>, p: int) -> bool {
    &&& 0 <= p
    &&& p + 1 <= w.len()
    &&& render_info_map_at(w, p) <= w.len()
    &&& (w[p] & 0x20 == 0x20 ==> render_info_map_at(w, p) + 1 <= w.len())
    &&& render_info_end(w, p) <= w.len()
}

/// Whether `r` is the render info stored at word `p` of `w`.
pub open spec fn render_info_at(w: Seq<u32>, p: int, r: RenderInfo) -> bool {
    let flags = w[p];
    let q = render_info_uv_at(w, p);
    let m = render_info_map_at(w, p);
    &&& r.flags == RenderInfoFlags(flags)
    &&& r.scalar_words() == w.subrange(p + 1, q)
    &&& r.uv_info == if flags & 0x10 == 0x10 { Some(UvInfo::at(w, q)) } else { None }
    &&& if flags & 0x20 == 0x20 {
        r.uv_map matches Some(um) && um.entry_count == w[m] && um.entries@ == pairs(w.skip(m + 1), w[m] as nat)
    } else {
        r.uv_map is None
    }
    &&& (r.pen is Some <==> flags & 0x01 == 0x01)
    &&& (r.brightness is Some <==> flags & 0x02 == 0x02)
    &&& (r.scaled_ambient is Some <==> flags & 0x04 == 0x04)
    &&& (r.simple_sprite_reference is Some <==> flags & 0x08 == 0x08)
}

/// The words of four optional one-word parts, one after another.
pub open spec fn opt_words4(a: Option<u32>, b: Option<u32>, c: Option<u32>, d: Option<u32>) -> Seq<u32> {
    opt_word(a) + opt_word(b) + opt_word(c) + opt_word(d)
}

/// Reads, from word `q` on, the pen, brightness, ambient light and sprite
/// that `flags` says are there, and where they end.
fn read_scalars(input: &[u8], q: usize, flags: u32) -> (r: Option<(Option<u32>, Option<u32>, Option<u32>, Option<u32>, usize)>)
    requires
        q <= words_of(input@).len(),
    ensures
        ({
            let w = words_of(input@);
            let e = q + part_len(flags, 0x01, 1) + part_len(flags, 0x02, 1) + part_len(flags, 0x04, 1) + part_len(
                flags,
                0x08,
                1,
            );
            &&& e <= w.len() ==> (r matches Some((a, b, c, d, e2)) && e2 == e && opt_words4(a, b, c, d)
                == w.subrange(q as int, e) && (a is Some <==> flags & 0x01 == 0x01) && (b is Some <==> flags & 0x02
                == 0x02) && (c is Some <==> flags & 0x04 == 0x04) && (d is Some <==> flags & 0x08 == 0x08))
            &&& e > w.len() ==> r is None
        }),
{
    let ghost w = words_of(input@);
    let (a, q1) = match read_opt(input, q, flags & 0x01 == 0x01) {
        Some(x) => x,
        None => return None,
    };
    let (b, q2) = match read_opt(input, q1, flags & 0x02 == 0x02) {
        Some(x) => x,
        None => return None,
    };
    let (c, q3) = match read_opt(input, q2, flags & 0x04 == 0x04) {
        Some(x) => x,
        None => return None,
    };
    let (d, q4) = match read_opt(input, q3, flags & 0x08 == 0x08) {
        Some(x) => x,
        None => return None,
    };
    proof {
        assert(w.subrange(q as int, q4 as int) =~= w.subrange(q as int, q1 as int) + w.subrange(q1 as int, q2 as int)
            + w.subrange(q2 as int, q3 as int) + w.subrange(q3 as int, q4 as int));
    }
    Some((a, b, c, d, q4))
}

impl RenderInfo {
    /// The stored words: the flags, then each part that is there.
    pub open spec fn words(&self) -> Seq<u32> {
        seq![self.flags.0] + self.scalar_words()
            + (match self.uv_info { Some(u) => u.words(), None => Seq::empty() })
            + (match self.uv_map { Some(m) => seq![m.entry_count] + flat2(m.entries@), None => Seq::empty() })
    }

    /// Each part is there exactly when its flag bit is set, and the count of
    /// texture coordinates is their number.
    pub open spec fn wf(&self) -> bool {
        let flags = self.flags.0;
        &&& (self.pen is Some <==> flags & 0x01 == 0x01)
        &&& (self.brightness is Some <==> flags & 0x02 == 0x02)
        &&& (self.scaled_ambient is Some <==> flags & 0x04 == 0x04)
        &&& (self.simple_sprite_reference is Some <==> flags & 0x08 == 0x08)
        &&& (self.uv_info is Some <==> flags & 0x10 == 0x10)
        &&& (self.uv_map is Some <==> flags & 0x20 == 0x20)
        &&& (self.uv_map matches Some(m) ==> m.entries@.len() == m.entry_count)
    }

    /// Reads the render info stored at word `p`, and where it ends.
    #[verifier::rlimit(80)]
    #[verifier::spinoff_prover]
    pub fn parse_at(input: &[u8], p: usize) -> (r: Option<(RenderInfo, usize)>)
        ensures
            render_info_fits(words_of(input@), p as int) ==> (r matches Some((ri, e)) && render_info_at(
                words_of(input@),
                p as int,
                ri,
            ) && e == render_info_end(words_of(input@), p as int)),
            !render_info_fits(words_of(input@), p as int) ==> r is None,
            r matches Some((ri, e)) ==> e <= words_of(input@).len(),
    {
        let ghost w = words_of(input@);
        let total = input.len() / 4;
        let flags = match word(input, p) {
            Some(x) => x,
            None => return None,
        };
        let (pen, brightness, scaled_ambient, simple_sprite_reference, q4) = match read_scalars(input, p + 1, flags) {
            Some(x) => x,
            None => return None,
        };
        assert(q4 == render_info_uv_at(w, p as int));
        let mut q = q4;
        let uv_info = if flags & 0x10 == 0x10 {
            let v = match word_list(input, q, 9) {
                Some(v) => v,
                None => return None,
            };
            q = q + 9;
            Some(UvInfo { uv_origin: (v[0], v[1], v[2]), u_axis: (v[3], v[4], v[5]), v_axis: (v[6], v[7], v[8]) })
        } else {
            None
        };
        assert(q == render_info_map_at(w, p as int));
        let uv_map = if flags & 0x20 == 0x20 {
            let n = match word(input, q) {
                Some(x) => x,
                None => return None,
            };
            let entries = match word_pairs(input, q + 1, n) {
                Some(v) => v,
                None => return None,
            };
            assert(q + 1 + 2 * n <= total);
            q = q + 1 + 2 * n as usize;
            Some(UvMap { entry_count: n, entries })
        } else {
            None
        };
        assert(q == render_info_end(w, p as int));
        Some((RenderInfo {
            flags: RenderInfoFlags(flags),
            pen,
            brightness,
            scaled_ambient,
            simple_sprite_reference,
            uv_info,
            uv_map,
        }, q))
    }

    pub fn parse(input: &[u8]) -> (r: WResult<'_, RenderInfo>)
        ensures
            render_info_fits(words_of(input@), 0) ==> (r matches Ok((rest, ri)) && render_info_at(
                words_of(input@),
                0,
                ri,
            ) && rest@ == input@.skip(4 * render_info_end(words_of(input@), 0))),
            !render_info_fits(words_of(input@), 0) ==> r == Err::<(&[u8], RenderInfo), WldDocError>(
                too_short_spec(input@),
            ),
    {
        let total = input.len() / 4;
        match Self::parse_at(input, 0) {
            Some((ri, e)) => {
                assert(e <= total);
                assert(4 * e <= input@.len()) by (nonlinear_arith)
                    requires
                        e <= input@.len() / 4,
                ;
                Ok((rest(input, 4 * e), ri))
            },
            None => Err(too_short(input)),
        }
    }

    /// The words of the parts between the flags and the texture axes.
    pub open spec fn scalar_words(&self) -> Seq<u32> {
        opt_words4(self.pen, self.brightness, self.scaled_ambient, self.simple_sprite_reference)
    }

    fn push_scalars(&self, out: &mut Vec<u32>)
        ensures
            final(out)@ == old(out)@ + self.scalar_words(),
    {
        let ghost o0 = out@;
        match self.pen {
            Some(x) => out.push(x),
            None => {},
        }
        let ghost o1 = out@;
        match self.brightness {
            Some(x) => out.push(x),
            None => {},
        }
        let ghost o2 = out@;
        match self.scaled_ambient {
            Some(x) => out.push(x),
            None => {},
        }
        let ghost o3 = out@;
        match self.simple_sprite_reference {
            Some(x) => out.push(x),
            None => {},
        }
        proof {
            assert(o1 =~= o0 + opt_word(self.pen));
            assert(o2 =~= o1 + opt_word(self.brightness));
            assert(o3 =~= o2 + opt_word(self.scaled_ambient));
            assert(out@ =~= o3 + opt_word(self.simple_sprite_reference));
            assert(out@ =~= o0 + self.scalar_words());
        }
    }

    fn push_uv(&self, out: &mut Vec<u32>)
        ensures
            final(out)@ == old(out)@ + (match self.uv_info { Some(u) => u.words(), None => Seq::empty() })
                + (match self.uv_map { Some(m) => seq![m.entry_count] + flat2(m.entries@), None => Seq::empty() }),
    {
        let ghost o0 = out@;
        match self.uv_info {
            Some(u) => {
                let v: Vec<u32> = vec![
                    u.uv_origin.0,
                    u.uv_origin.1,
                    u.uv_origin.2,
                    u.u_axis.0,
                    u.u_axis.1,
                    u.u_axis.2,
                    u.v_axis.0,
                    u.v_axis.1,
                    u.v_axis.2,
                ];
                crate::wld::words::push_words(out, &v);
                proof {
                    assert(v@ =~= u.words());
                }
            },
            None => {},
        }
        let ghost o1 = out@;
        match &self.uv_map {
            Some(m) => {
                out.push(m.entry_count);
                push_pairs(out, &m.entries);
            },
            None => {},
        }
        proof {
            assert(o1 =~= o0 + (match self.uv_info { Some(u) => u.words(), None => Seq::<u32>::empty() }));
            assert(out@ =~= o1 + (match self.uv_map {
                Some(m) => seq![m.entry_count] + flat2(m.entries@),
                None => Seq::<u32>::empty(),
            }));
        }
    }

    /// Appends the stored words.
    pub fn push_words(&self, out: &mut Vec<u32>)
        ensures
            final(out)@ == old(out)@ + self.words(),
    {
        let ghost o0 = out@;
        out.push(self.flags.0);
        self.push_scalars(out);
        self.push_uv(out);
        proof {
            assert(out@ =~= o0 + self.words());
        }
    }

    pub fn into_bytes(&self) -> (r: Vec<u8>)
        ensures
            r@ == u32s_bytes(self.words()),
    {
        let mut w: Vec<u32> = Vec::new();
        self.push_words(&mut w);
        let mut out: Vec<u8> = Vec::new();
        push_u32s(&mut out, &w);
        proof {
            assert(w@ =~= self.words());
        }
        out
    }
}

/// A well-formed render info is read back from its words, whatever
/// surrounds them.
#[verifier::spinoff_prover]
#[verifier::rlimit(80)]
pub proof fn lemma_render_info_round_trip(pre: Seq<u32>, r: RenderInfo, tail: Seq<u32>)
    requires
        r.wf(),
    ensures
        ({
            let w = pre + r.words() + tail;
            &&& render_info_fits(w, pre.len() as int)
            &&& render_info_at(w, pre.len() as int, r)
            &&& render_info_end(w, pre.len() as int) == pre.len() + r.words().len()
        }),
{
    let p = pre.len() as int;
    let sc = r.scalar_words();
    let u = match r.uv_info { Some(u) => u.words(), None => Seq::<u32>::empty() };
    let m = match r.uv_map { Some(m) => seq![m.entry_count] + flat2(m.entries@), None => Seq::<u32>::empty() };
    let w = pre + r.words() + tail;
    assert(w =~= pre + seq![r.flags.0] + sc + u + m + tail);
    assert(w[p] == r.flags.0);
    let q = render_info_uv_at(w, p);
    assert(q == p + 1 + sc.len());
    assert(w.subrange(p + 1, q) =~= sc);
    if r.flags.0 & 0x10 == 0x10 {
        assert(w.subrange(q, q + 9) =~= u);
    }
    let mq = render_info_map_at(w, p);
    assert(mq == q + u.len());
    match r.uv_map {
        Some(mm) => {
            lemma_pairs_flat2(mm.entries@, tail);
            assert(w[mq] == mm.entry_count);
            assert(w.skip(mq + 1) =~= flat2(mm.entries@) + tail);
        },
        None => {},
    }
}

/// The words of the render info read at word `p` of `w` are the words it
/// was read from, and it is well formed.
#[verifier::spinoff_prover]
pub proof fn lemma_render_info_words(w: Seq<u32>, p: int, r: RenderInfo)
    requires
        render_info_fits(w, p),
        render_info_at(w, p, r),
    ensures
        r.words() == w.subrange(p, render_info_end(w, p)),
        r.wf(),
{
    let q = render_info_uv_at(w, p);
    let mq = render_info_map_at(w, p);
    if w[p] & 0x20 == 0x20 {
        lemma_flat2_pairs(w.skip(mq + 1), w[mq] as nat);
        assert(w.skip(mq + 1).take(2 * w[mq]) =~= w.subrange(mq + 1, render_info_end(w, p)));
    }
    assert(r.words() =~= w.subrange(p, render_info_end(w, p)));
}

} // verus!
