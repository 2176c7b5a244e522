//! The actor (model) definition fragment (0x14), its actions and its flags.
use vstd::prelude::*;
use crate::bytes::{le_u32, u32_at, push_u32, i32_bits, bits_to_i32, i32_to_bits, lemma_i32_bits,
    lemma_bits_i32};
use crate::wld::parse::{WResult, u32_field, rest, too_short, WldDocError, u32s_bytes, push_u32s};
use crate::wld::words::{words_of, word, word_list, word_name, opt_word, push_words};
use crate::wld::fragments::{Fragment, StringReference, too_short_spec};

verus! {

/// The flags of an actor (model) definition.
#[derive(Debug, Clone, Copy, PartialEq, Eq, Structural)]
pub struct ActorDefFlags(pub u32);

impl ActorDefFlags {
    const HAS_CURRENT_ACTION: u32 = 0x01;
    const HAS_LOCATION: u32 = 0x02;
    const ACTIVE_GEOMETRY: u32 = 0x40;
    const SPRITE_VOLUME_ONLY: u32 = 0x80;

    fn parse(input: &[u8]) -> (r: WResult<'_, Self>)
        ensures
            input@.len() >= 4 ==> (r matches Ok((rest, f)) && f.0 == u32_at(input@, 0) && rest@ == input@.skip(4)),
            input@.len() < 4 ==> r is Err,
    {
        match u32_field(input, 0) {
            Some(v) => Ok((rest(input, 4), Self(v))),
            None => Err(too_short(input)),
        }
    }

    fn into_bytes(&self) -> (r: Vec<u8>)
        ensures
            r@ == le_u32(self.0),
    {
        let mut out = Vec::new();
        push_u32(&mut out, self.0);
        out
    }

    /// Whether a current action follows.
    pub fn has_current_action(&self) -> (r: bool)
        ensures
            r == (self.0 & 0x01 == 0x01),
    {
        self.0 & Self::HAS_CURRENT_ACTION == Self::HAS_CURRENT_ACTION
    }

    /// Whether a location follows.
    pub fn has_location(&self) -> (r: bool)
        ensures
            r == (self.0 & 0x02 == 0x02),
    {
        self.0 & Self::HAS_LOCATION == Self::HAS_LOCATION
    }

    /// Whether the geometry is active.
    pub fn active_geometry(&self) -> (r: bool)
        ensures
            r == (self.0 & 0x40 == 0x40),
    {
        self.0 & Self::ACTIVE_GEOMETRY == Self::ACTIVE_GEOMETRY
    }

    /// Whether only the sprite volume is used.
    pub fn sprite_volume_only(&self) -> (r: bool)
        ensures
            r == (self.0 & 0x80 == 0x80),
    {
        self.0 & Self::SPRITE_VOLUME_ONLY == Self::SPRITE_VOLUME_ONLY
    }
}

/// Where an actor definition is placed (six `f32`s kept as their bits, and
/// a word of unknown meaning).
#[derive(Debug, Clone, Copy, PartialEq, Eq, Structural)]
pub struct Location {
    pub loc0: u32,
    pub loc1: u32,
    pub loc2: u32,
    pub loc3: u32,
    pub loc4: u32,
    pub loc5: u32,
    pub loc6: u32,
}

impl Location {
    /// The location held by the seven words of `w` from `p` on.
    pub open spec fn at(w: Seq<u32>, p: int) -> Location {
        Location {
            loc0: w[p],
            loc1: w[p + 1],
            loc2: w[p + 2],
            loc3: w[p + 3],
            loc4: w[p + 4],
            loc5: w[p + 5],
            loc6: w[p + 6],
        }
    }

    pub open spec fn words(&self) -> Seq<u32> {
        seq![self.loc0, self.loc1, self.loc2, self.loc3, self.loc4, self.loc5, self.loc6]
    }
}

/// The words of an optional location.
pub open spec fn opt_location(o: Option<Location>) -> Seq<u32> {
    match o {
        Some(l) => l.words(),
        None => Seq::empty(),
    }
}

/// An action of an actor: the distances of its levels of detail (minimum
/// and maximum, kept as the bits of their `f32`s).
#[derive(Debug, PartialEq)]
pub struct Action {
    pub levels_of_detail_count: u32,
    /// _Unknown_.
    pub unknown: u32,
    /// `levels_of_detail_count` distances.
    pub levels_of_detail_distances: Vec<u32>,
}

/// Where the action stored at word `q` of `w` ends: two words, then a
/// distance per level of detail.
pub open spec fn action_end(w: Seq<u32>, q: int) -> int {
    q + 2 + w[q]
}

/// Whether `w` holds the whole action stored at word `q`.
pub open spec fn action_fits(w: Seq<u32>, q: int) -> bool {
    0 <= q && q + 2 <= w.len() && action_end(w, q) <= w.len()
}

/// Whether `a` is the action stored at word `q` of `w`.
pub open spec fn action_at(w: Seq<u32>, q: int, a: Action) -> bool {
    &&& a.levels_of_detail_count == w[q]
    &&& a.unknown == w[q + 1]
    &&& a.levels_of_detail_distances@ == w.subrange(q + 2, action_end(w, q))
}

/// Where each of `c` actions stored one after another from word `p` of `w`
/// begins, and (last) where the last one ends.
pub open spec fn action_offsets(w: Seq<u32>, p: int, c: nat) -> Seq<int>
    decreases c,
{
    if c == 0 {
        seq![p]
    } else {
        let o = action_offsets(w, p, (c - 1) as nat);
        o.push(action_end(w, o.last()))
    }
}

/// Whether `w` holds all of the `c` actions stored from word `p`.
pub open spec fn actions_fit(w: Seq<u32>, p: int, c: nat) -> bool {
    forall|i: int| 0 <= i < c ==> action_fits(w, #[trigger] action_offsets(w, p, c)[i])
}

/// There is an offset per action, and one more for the end.
pub proof fn lemma_action_offsets_len(w: Seq<u32>, p: int, c: nat)
    ensures
        action_offsets(w, p, c).len() == c + 1,
    decreases c,
{
    if c > 0 {
        lemma_action_offsets_len(w, p, (c - 1) as nat);
    }
}

/// The offsets of fewer actions are the first of those of more.
pub proof fn lemma_action_offsets_prefix(w: Seq<u32>, p: int, a: nat, b: nat)
    requires
        a <= b,
    ensures
        action_offsets(w, p, a).len() == a + 1,
        action_offsets(w, p, b).len() == b + 1,
        forall|i: int| 0 <= i <= a ==> #[trigger] action_offsets(w, p, a)[i] == action_offsets(w, p, b)[i],
    decreases b,
{
    lemma_action_offsets_len(w, p, a);
    lemma_action_offsets_len(w, p, b);
    if b > a {
        lemma_action_offsets_prefix(w, p, a, (b - 1) as nat);
    }
}

impl Action {
    pub open spec fn words(&self) -> Seq<u32> {
        seq![self.levels_of_detail_count, self.unknown] + self.levels_of_detail_distances@
    }

    /// The count is the number of distances.
    pub open spec fn wf(&self) -> bool {
        self.levels_of_detail_distances@.len() == self.levels_of_detail_count
    }

    /// Reads the action stored at word `q`, and where it ends.
    fn parse_at(input: &[u8], q: usize) -> (r: Option<(Action, usize)>)
        ensures
            action_fits(words_of(input@), q as int) ==> (r matches Some((a, e)) && action_at(
                words_of(input@),
                q as int,
                a,
            ) && e == action_end(words_of(input@), q as int)),
            !action_fits(words_of(input@), q as int) ==> r is None,
    {
        let total = input.len() / 4;
        if q > total || total - q < 2 {
            return None;
        }
        let head = match word_list(input, q, 2) {
            Some(v) => v,
            None => return None,
        };
        let distances = match word_list(input, q + 2, head[0]) {
            Some(v) => v,
            None => return None,
        };
        let e = q + 2 + head[0] as usize;
        Some((Action { levels_of_detail_count: head[0], unknown: head[1], levels_of_detail_distances: distances }, e))
    }

    fn push_words(&self, out: &mut Vec<u32>)
        ensures
            final(out)@ == old(out)@ + self.words(),
    {
        out.push(self.levels_of_detail_count);
        out.push(self.unknown);
        push_words(out, &self.levels_of_detail_distances);
        proof {
            assert(out@ =~= old(out)@ + self.words());
        }
    }
}

/// The words of actions stored one after another.
pub open spec fn actions_words(v: Seq<Action>) -> Seq<u32>
    decreases v.len(),
{
    if v.len() == 0 {
        Seq::empty()
    } else {
        actions_words(v.drop_last()) + v.last().words()
    }
}

/// Reads `c` actions stored one after another from word `p`, and where
/// they end.
fn parse_actions(input: &[u8], p: usize, c: u32) -> (r: Option<(Vec<Action>, usize)>)
    requires
        p <= words_of(input@).len(),
    ensures
        r matches Some((v, e)) ==> e <= words_of(input@).len(),
        actions_fit(words_of(input@), p as int, c as nat) ==> (r matches Some((v, e)) && v@.len() == c
            && e == action_offsets(words_of(input@), p as int, c as nat).last()
            && forall|i: int| 0 <= i < c ==> action_at(words_of(input@), #[trigger] action_offsets(words_of(input@), p as int, c as nat)[i], v@[i])),
        !actions_fit(words_of(input@), p as int, c as nat) ==> r is None,
{
    let ghost w = words_of(input@);
    let mut v: Vec<Action> = Vec::new();
    let mut q = p;
    let mut i: u32 = 0;
    while i < c
        invariant
            i <= c,
            w == words_of(input@),
            q <= w.len(),
            v@.len() == i,
            q == action_offsets(w, p as int, i as nat).last(),
            forall|j: int| 0 <= j < i ==> action_fits(w, #[trigger] action_offsets(w, p as int, i as nat)[j]),
            forall|j: int| 0 <= j < i ==> action_at(w, #[trigger] action_offsets(w, p as int, i as nat)[j], v@[j]),
        decreases c - i,
    {
        proof {
            lemma_action_offsets_prefix(w, p as int, i as nat, (i + 1) as nat);
        }
        match Action::parse_at(input, q) {
            Some((a, e)) => {
                v.push(a);
                q = e;
            },
            None => {
                proof {
                    lemma_action_offsets_prefix(w, p as int, i as nat, c as nat);
                    assert(!action_fits(w, action_offsets(w, p as int, c as nat)[i as int]));
                }
                return None;
            },
        }
        i = i + 1;
    }
    Some((v, q))
}

/// Appends the words of each action.
fn push_actions(out: &mut Vec<u32>, v: &Vec<Action>)
    ensures
        final(out)@ == old(out)@ + actions_words(v@),
{
    let mut k: usize = 0;
    while k < v.len()
        invariant
            k <= v@.len(),
            out@ == old(out)@ + actions_words(v@.take(k as int)),
        decreases v@.len() - k,
    {
        v[k].push_words(out);
        k = k + 1;
        proof {
            assert(v@.take(k as int).drop_last() =~= v@.take(k - 1));
            assert(out@ =~= old(out)@ + actions_words(v@.take(k as int)));
        }
    }
    proof {
        assert(v@.take(k as int) =~= v@);
    }
}

/// Actions written one after another are read back from where they were
/// written, whatever surrounds them.
pub proof fn lemma_actions_read_back(pre: Seq<u32>, v: Seq<Action>, tail: Seq<u32>)
    requires
        forall|i: int| 0 <= i < v.len() ==> (#[trigger] v[i]).wf(),
    ensures
        ({
            let w = pre + actions_words(v) + tail;
            let o = action_offsets(w, pre.len() as int, v.len());
            &&& o.last() == pre.len() + actions_words(v).len()
            &&& actions_fit(w, pre.len() as int, v.len())
            &&& forall|i: int| 0 <= i < v.len() ==> action_at(w, #[trigger] o[i], v[i])
        }),
    decreases v.len(),
{
    let w = pre + actions_words(v) + tail;
    let pl = pre.len() as int;
    lemma_action_offsets_len(w, pl, v.len());
    if v.len() > 0 {
        let p = v.drop_last();
        let x = v.last();
        assert forall|i: int| 0 <= i < p.len() implies (#[trigger] p[i]).wf() by {
            assert(p[i] == v[i]);
        }
        lemma_actions_read_back(pre, p, x.words() + tail);
        assert(pre + actions_words(p) + (x.words() + tail) =~= w);
        let q = pl + actions_words(p).len();
        let op = action_offsets(w, pl, p.len());
        let o = action_offsets(w, pl, v.len());
        lemma_action_offsets_prefix(w, pl, p.len(), v.len());
        assert(o[p.len() as int] == q);
        assert(w[q] == x.levels_of_detail_count);
        assert(w.subrange(q + 2, action_end(w, q)) =~= x.levels_of_detail_distances@);
        assert(action_at(w, q, x));
        assert forall|i: int| 0 <= i < v.len() implies action_at(w, #[trigger] o[i], v[i]) by {
            if i < p.len() {
                assert(o[i] == op[i]);
                assert(v[i] == p[i]);
            }
        }
        assert forall|i: int| 0 <= i < v.len() implies action_fits(w, #[trigger] o[i]) by {
            if i < p.len() {
                assert(o[i] == op[i]);
                assert(action_fits(w, op[i]));
            }
        }
    }
}

/// Actions read one after another are written back as the words they were
/// read from, and each is well formed.
pub proof fn lemma_actions_words(w: Seq<u32>, p: int, v: Seq<Action>)
    requires
        0 <= p <= w.len(),
        actions_fit(w, p, v.len()),
        forall|i: int| 0 <= i < v.len() ==> action_at(w, #[trigger] action_offsets(w, p, v.len())[i], v[i]),
    ensures
        actions_words(v) == w.subrange(p, action_offsets(w, p, v.len()).last()),
        forall|i: int| 0 <= i < v.len() ==> (#[trigger] v[i]).wf(),
        p <= action_offsets(w, p, v.len()).last(),
    decreases v.len(),
{
    lemma_action_offsets_len(w, p, v.len());
    if v.len() > 0 {
        let n = (v.len() - 1) as nat;
        let pr = v.drop_last();
        let x = v.last();
        let o = action_offsets(w, p, v.len());
        let op = action_offsets(w, p, n);
        lemma_action_offsets_prefix(w, p, n, v.len());
        assert forall|i: int| 0 <= i < n implies action_fits(w, #[trigger] op[i]) by {
            assert(op[i] == o[i]);
            assert(action_fits(w, o[i]));
        }
        assert forall|i: int| 0 <= i < n implies action_at(w, #[trigger] op[i], pr[i]) by {
            assert(op[i] == o[i]);
            assert(pr[i] == v[i]);
            assert(action_at(w, o[i], v[i]));
        }
        lemma_actions_words(w, p, pr);
        let q = op.last();
        assert(o[n as int] == q);
        assert(action_fits(w, o[n as int]));
        assert(action_at(w, o[n as int], v[n as int]));
        assert(x.words() =~= w.subrange(q, action_end(w, q)));
        assert(actions_words(v) =~= w.subrange(p, o.last()));
        assert forall|i: int| 0 <= i < v.len() implies (#[trigger] v[i]).wf() by {
            if i < n {
                assert(v[i] == pr[i]);
            }
        }
    } else {
        assert(actions_words(v) =~= w.subrange(p, p));
    }
}

/// An actor (model) definition: its actions, levels of detail and the
/// fragments (sprites) it is made of.
///
/// **Type ID:** 0x14
#[derive(Debug, PartialEq)]
pub struct ModelFragment {
    pub name_reference: StringReference,
    /// Bit 0: `current_action` is there; bit 1: `location`.
    pub flags: ActorDefFlags,
    /// The name of the actor's callback function.
    pub callback_name_reference: StringReference,
    pub action_count: u32,
    pub fragment_reference_count: u32,
    pub bounds_reference: u32,
    pub current_action: Option<u32>,
    pub location: Option<Location>,
    /// `action_count` actions.
    pub actions: Vec<Action>,
    /// `fragment_reference_count` fragments (sprites, meshes) of the actor.
    pub fragment_references: Vec<u32>,
    /// _Unknown_.
    pub unknown: u32,
}

impl ModelFragment {
    pub const TYPE_ID: u32 = 0x14;

    /// Where the actions of the actor held by `w` begin: after the six
    /// header words and the current action (a word) and location (seven
    /// words) that are there.
    pub open spec fn actions_at(w: Seq<u32>) -> int {
        6 + (if w[1] & 0x01 == 0x01 { 1int } else { 0 }) + (if w[1] & 0x02 == 0x02 { 7int } else { 0 })
    }

    /// Where the fragment references of the actor held by `w` begin.
    pub open spec fn references_at(w: Seq<u32>) -> int {
        action_offsets(w, Self::actions_at(w), w[3] as nat).last()
    }

    /// How many words the actor held by `w` takes, if `w` holds it all: the
    /// references are followed by one more word.
    pub open spec fn size(w: Seq<u32>) -> Option<nat> {
        if w.len() < 6 || w.len() < Self::actions_at(w) || !actions_fit(w, Self::actions_at(w), w[3] as nat)
            || w.len() < Self::references_at(w) + w[4] + 1 {
            None
        } else {
            Some((Self::references_at(w) + w[4] + 1) as nat)
        }
    }

    /// Whether `f` is the actor held by `w`.
    pub open spec fn read_from(w: Seq<u32>, f: ModelFragment) -> bool {
        let flags = w[1];
        let a = Self::actions_at(w);
        let o = action_offsets(w, a, w[3] as nat);
        let r = Self::references_at(w);
        &&& f.name_reference == word_name(w[0])
        &&& f.flags == ActorDefFlags(flags)
        &&& f.callback_name_reference == word_name(w[2])
        &&& f.action_count == w[3]
        &&& f.fragment_reference_count == w[4]
        &&& f.bounds_reference == w[5]
        &&& f.current_action == if flags & 0x01 == 0x01 { Some(w[6]) } else { None }
        &&& f.location == if flags & 0x02 == 0x02 {
            Some(Location::at(w, 6 + (if flags & 0x01 == 0x01 { 1int } else { 0 })))
        } else {
            None
        }
        &&& f.actions@.len() == w[3]
        &&& forall|i: int| 0 <= i < w[3] ==> action_at(w, #[trigger] o[i], f.actions@[i])
        &&& f.fragment_references@ == w.subrange(r, r + w[4])
        &&& f.unknown == w[r + w[4]]
    }

    /// The words of the stored form.
    pub open spec fn words(&self) -> Seq<u32> {
        seq![
            i32_bits(self.name_reference.0),
            self.flags.0,
            i32_bits(self.callback_name_reference.0),
            self.action_count,
            self.fragment_reference_count,
            self.bounds_reference,
        ] + opt_word(self.current_action) + opt_location(self.location) + actions_words(self.actions@)
            + self.fragment_references@ + seq![self.unknown]
    }

    pub open spec fn spec_to_bytes(&self) -> Seq<u8> {
        u32s_bytes(self.words())
    }

    /// The optional parts are there exactly when their flag bits are set,
    /// and each count is the number of what it counts.
    pub open spec fn wf(&self) -> bool {
        &&& (self.current_action is Some <==> self.flags.0 & 0x01 == 0x01)
        &&& (self.location is Some <==> self.flags.0 & 0x02 == 0x02)
        &&& self.actions@.len() == self.action_count
        &&& forall|i: int| 0 <= i < self.actions@.len() ==> (#[trigger] self.actions@[i]).wf()
        &&& self.fragment_references@.len() == self.fragment_reference_count
    }

    pub fn parse(input: &[u8]) -> (r: WResult<'_, ModelFragment>)
        ensures
            match Self::size(words_of(input@)) {
                Some(n) => r matches Ok((rest, f)) && Self::read_from(words_of(input@), f)
                    && rest@ == input@.skip(4 * n as int),
                None => r == Err::<(&[u8], ModelFragment), WldDocError>(too_short_spec(input@)),
            },
    {
        let ghost w = words_of(input@);
        let total = input.len() / 4;
        let head = match word_list(input, 0, 6) {
            Some(v) => v,
            None => return Err(too_short(input)),
        };
        let flags = head[1];
        let mut p: usize = 6;
        let current_action = if flags & 0x01 == 0x01 {
            let x = match word(input, p) {
                Some(x) => x,
                None => return Err(too_short(input)),
            };
            p = p + 1;
            Some(x)
        } else {
            None
        };
        let location = if flags & 0x02 == 0x02 {
            let v = match word_list(input, p, 7) {
                Some(v) => v,
                None => return Err(too_short(input)),
            };
            p = p + 7;
            Some(Location { loc0: v[0], loc1: v[1], loc2: v[2], loc3: v[3], loc4: v[4], loc5: v[5], loc6: v[6] })
        } else {
            None
        };
        assert(p == Self::actions_at(w));
        let (actions, q) = match parse_actions(input, p, head[3]) {
            Some(x) => x,
            None => return Err(too_short(input)),
        };
        let fragment_references = match word_list(input, q, head[4]) {
            Some(v) => v,
            None => return Err(too_short(input)),
        };
        assert(q + head@[4] <= total);
        let u = q + head[4] as usize;
        let unknown = match word(input, u) {
            Some(x) => x,
            None => return Err(too_short(input)),
        };
        let end = u + 1;
        assert(4 * end <= input@.len()) by (nonlinear_arith)
            requires
                end <= input@.len() / 4,
        ;
        let f = ModelFragment {
            name_reference: StringReference::new(bits_to_i32(head[0])),
            flags: ActorDefFlags(flags),
            callback_name_reference: StringReference::new(bits_to_i32(head[2])),
            action_count: head[3],
            fragment_reference_count: head[4],
            bounds_reference: head[5],
            current_action,
            location,
            actions,
            fragment_references,
            unknown,
        };
        Ok((rest(input, 4 * end), f))
    }
}

impl Fragment for ModelFragment {
    open spec fn spec_into_bytes(&self) -> Seq<u8> {
        self.spec_to_bytes()
    }

    open spec fn spec_serializable(&self) -> bool {
        true
    }

    fn into_bytes(&self) -> (r: Vec<u8>) {
        let mut w: Vec<u32> = vec![
            i32_to_bits(self.name_reference.0),
            self.flags.0,
            i32_to_bits(self.callback_name_reference.0),
            self.action_count,
            self.fragment_reference_count,
            self.bounds_reference,
        ];
        let ghost a = w@;
        match self.current_action {
            Some(x) => w.push(x),
            None => {},
        }
        let ghost b = w@;
        match self.location {
            Some(l) => {
                let v: Vec<u32> = vec![l.loc0, l.loc1, l.loc2, l.loc3, l.loc4, l.loc5, l.loc6];
                push_words(&mut w, &v);
                proof {
                    assert(v@ =~= l.words());
                }
            },
            None => {},
        }
        let ghost c = w@;
        push_actions(&mut w, &self.actions);
        push_words(&mut w, &self.fragment_references);
        w.push(self.unknown);
        let mut out: Vec<u8> = Vec::new();
        push_u32s(&mut out, &w);
        proof {
            assert(b =~= a + opt_word(self.current_action));
            assert(c =~= b + opt_location(self.location));
            assert(w@ =~= self.words());
        }
        out
    }

    fn name_ref(&self) -> (r: &StringReference)
        ensures
            *r == self.name_reference,
    {
        &self.name_reference
    }

    fn type_id(&self) -> (r: u32)
        ensures
            r == 0x14,
    {
        Self::TYPE_ID
    }
}

/// Reading back the words of a well-formed actor definition gives the same
/// definition, whatever follows them.
#[verifier::rlimit(40)]
#[verifier::spinoff_prover]
pub proof fn lemma_model_round_trip(f: ModelFragment, tail: Seq<u32>)
    requires
        f.wf(),
    ensures
        ModelFragment::size(f.words() + tail) == Some(f.words().len()),
        ModelFragment::read_from(f.words() + tail, f),
{
    lemma_i32_bits(f.name_reference.0);
    lemma_i32_bits(f.callback_name_reference.0);
    let h = seq![
        i32_bits(f.name_reference.0),
        f.flags.0,
        i32_bits(f.callback_name_reference.0),
        f.action_count,
        f.fragment_reference_count,
        f.bounds_reference,
    ];
    let c = opt_word(f.current_action);
    let l = opt_location(f.location);
    let a = actions_words(f.actions@);
    let r = f.fragment_references@;
    let u = seq![f.unknown];
    let w = f.words() + tail;
    assert(w =~= h + c + l + a + r + u + tail);
    lemma_actions_read_back(h + c + l, f.actions@, r + u + tail);
    assert(h + c + l + a + (r + u + tail) =~= w);
    assert(ModelFragment::actions_at(w) == (h + c + l).len());
    let rp = ModelFragment::references_at(w);
    assert(rp == (h + c + l + a).len());
    assert(w.subrange(rp, rp + f.fragment_reference_count) =~= r);
}

/// The words of the actor definition read from `w` are the words it was
/// read from, and it is well formed.
#[verifier::rlimit(40)]
#[verifier::spinoff_prover]
pub proof fn lemma_model_words(w: Seq<u32>, f: ModelFragment)
    requires
        ModelFragment::size(w) is Some,
        ModelFragment::read_from(w, f),
    ensures
        f.words() == w.take(ModelFragment::size(w)->0 as int),
        f.wf(),
{
    lemma_bits_i32(w[0]);
    lemma_bits_i32(w[2]);
    lemma_actions_words(w, ModelFragment::actions_at(w), f.actions@);
    assert(f.words() =~= w.take(ModelFragment::size(w)->0 as int));
}

} // verus!
