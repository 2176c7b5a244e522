//! Lists of fixed-size records, the bulk of the mesh fragments.
use vstd::prelude::*;
use crate::bytes::{le_u16, le_u32, le_i16, u16_at, u32_at, i16_at, i8_bits, i8_of_bits, i16_bits, read_u16, read_u32,
    read_i16, push_u16, push_u32, push_i16, bits_to_i8, i8_to_bits, lemma_u16_roundtrip, lemma_u32_roundtrip,
    lemma_u16_field, lemma_u32_field, lemma_u16_bytes, lemma_u32_bytes, lemma_i16_bits, lemma_bits_i16, lemma_i8_bits,
    lemma_bits_i8};

verus! {

/// A record of a fixed number of bytes.
pub trait FixedRecord: Sized {
    /// The number of bytes a record takes.
    spec fn spec_size() -> nat;

    /// The record stored at the start of `s`.
    spec fn spec_decode(s: Seq<u8>) -> Self;

    /// The stored form of the record.
    spec fn spec_encode(&self) -> Seq<u8>;

    /// Whether the record is one that reading can give.
    spec fn spec_wf(&self) -> bool;

    /// A well-formed record is read back from its stored form, whatever
    /// follows it.
    proof fn lemma_decode_encode(x: Self, tail: Seq<u8>)
        requires
            x.spec_wf(),
        ensures
            x.spec_encode().len() == Self::spec_size(),
            Self::spec_decode(x.spec_encode() + tail) == x,
    ;

    /// The record read from `s` is well formed, and its stored form is the
    /// bytes it was read from.
    proof fn lemma_encode_decode(s: Seq<u8>)
        requires
            s.len() >= Self::spec_size(),
        ensures
            Self::spec_decode(s).spec_wf(),
            Self::spec_decode(s).spec_encode() == s.take(Self::spec_size() as int),
    ;

    fn size() -> (r: usize)
        ensures
            r == Self::spec_size(),
            1 <= r <= 32,
    ;

    fn read(input: &[u8], pos: usize) -> (r: Self)
        requires
            pos + Self::spec_size() <= input@.len(),
        ensures
            r == Self::spec_decode(input@.skip(pos as int)),
    ;

    fn write(&self, out: &mut Vec<u8>)
        ensures
            final(out)@ == old(out)@ + self.spec_encode(),
    ;
}

/// The `n` records stored one after another from `pos`.
pub open spec fn records_at<T: FixedRecord>(s: Seq<u8>, pos: int, n: nat) -> Seq<T> {
    Seq::new(n, |i: int| T::spec_decode(s.skip(pos + T::spec_size() * i)))
}

/// The stored forms of the records, one after another.
pub open spec fn records_bytes<T: FixedRecord>(v: Seq<T>) -> Seq<u8>
    decreases v.len(),
{
    if v.len() == 0 {
        Seq::empty()
    } else {
        records_bytes(v.drop_last()) + v.last().spec_encode()
    }
}

/// Each record takes its size.
pub proof fn lemma_records_bytes_len<T: FixedRecord>(v: Seq<T>)
    requires
        forall|i: int| 0 <= i < v.len() ==> (#[trigger] v[i]).spec_wf(),
    ensures
        records_bytes(v).len() == T::spec_size() * v.len(),
{
    lemma_records_read_back::<T>(Seq::empty(), v, Seq::empty());
}

/// Records written one after another are read back from where they start,
/// whatever stands before and after them.
pub proof fn lemma_records_read_back<T: FixedRecord>(pre: Seq<u8>, v: Seq<T>, tail: Seq<u8>)
    requires
        forall|i: int| 0 <= i < v.len() ==> (#[trigger] v[i]).spec_wf(),
    ensures
        records_bytes(v).len() == T::spec_size() * v.len(),
        records_at::<T>(pre + records_bytes(v) + tail, pre.len() as int, v.len()) == v,
    decreases v.len(),
{
    if v.len() > 0 {
        let p = v.drop_last();
        let x = v.last();
        let n = p.len();
        let z = T::spec_size();
        assert forall|i: int| 0 <= i < p.len() implies (#[trigger] p[i]).spec_wf() by {
            assert(p[i] == v[i]);
        }
        assert(v[v.len() - 1] == x);
        T::lemma_decode_encode(x, tail);
        lemma_records_read_back(pre, p, x.spec_encode() + tail);
        let s = pre + records_bytes(v) + tail;
        assert(pre + records_bytes(p) + (x.spec_encode() + tail) =~= s);
        assert(z * v.len() == z * n + z) by (nonlinear_arith)
            requires
                v.len() == n + 1,
        ;
        assert(s.skip((pre.len() + z * n) as int) =~= x.spec_encode() + tail);
        assert forall|i: int| 0 <= i < v.len() implies #[trigger] records_at::<T>(s, pre.len() as int, v.len())[i]
            == v[i] by {
            if i < n {
                assert(records_at::<T>(s, pre.len() as int, n)[i] == p[i]);
            }
        }
        assert(records_at::<T>(s, pre.len() as int, v.len()) =~= v);
    } else {
        assert(records_at::<T>(pre + records_bytes(v) + tail, pre.len() as int, v.len()) =~= v);
    }
}

/// The records read from `s` are well formed, and their stored forms, one
/// after another, are the bytes they were read from.
pub proof fn lemma_records_bytes<T: FixedRecord>(s: Seq<u8>, p: int, n: nat)
    requires
        0 <= p,
        p + T::spec_size() * n <= s.len(),
    ensures
        records_bytes(records_at::<T>(s, p, n)) == s.subrange(p, p + T::spec_size() * n),
        forall|i: int| 0 <= i < n ==> (#[trigger] records_at::<T>(s, p, n)[i]).spec_wf(),
    decreases n,
{
    let z = T::spec_size();
    if n > 0 {
        let m = (n - 1) as nat;
        assert(z * n == z * m + z && z * m >= 0) by (nonlinear_arith)
            requires
                n == m + 1,
                z >= 0,
        ;
        lemma_records_bytes::<T>(s, p, m);
        let r = records_at::<T>(s, p, n);
        assert(r.drop_last() =~= records_at::<T>(s, p, m));
        let q = p + z * m;
        T::lemma_encode_decode(s.skip(q));
        assert(s.skip(q).take(z as int) =~= s.subrange(q, q + z));
        assert(s.subrange(p, q) + s.subrange(q, q + z) =~= s.subrange(p, p + z * n));
        assert forall|i: int| 0 <= i < n implies (#[trigger] r[i]).spec_wf() by {
            if i < m {
                assert(r[i] == records_at::<T>(s, p, m)[i]);
            }
        }
    } else {
        assert(z * n == 0) by (nonlinear_arith)
            requires
                n == 0,
        ;
        assert(s.subrange(p, p) =~= Seq::<u8>::empty());
    }
}

/// Reads `n` records from `pos`, if they are all there; returns them and
/// where they end.
pub fn parse_records<T: FixedRecord>(input: &[u8], pos: usize, n: u32) -> (r: Option<(Vec<T>, usize)>)
    ensures
        pos + T::spec_size() * n <= input@.len() ==> (r matches Some((v, end)) && v@ == records_at::<T>(
            input@,
            pos as int,
            n as nat,
        ) && end == pos + T::spec_size() * n),
        pos + T::spec_size() * n > input@.len() ==> r is None,
{
    let size = T::size();
    let len = input.len();
    if pos > len {
        return None;
    }
    let room = len - pos;
    let q = room / size;
    if q < n as usize {
        assert(room < size * n) by (nonlinear_arith)
            requires
                q == room / size,
                q < n,
                size >= 1,
        ;
        return None;
    }
    assert(size * n <= room) by (nonlinear_arith)
        requires
            q == room / size,
            q >= n,
            size >= 1,
    ;
    let mut out: Vec<T> = Vec::new();
    let mut i: usize = 0;
    while i < n as usize
        invariant
            i <= n,
            size == T::spec_size(),
            size >= 1,
            len == input@.len(),
            pos + size * n <= len,
            out@ == records_at::<T>(input@, pos as int, i as nat),
        decreases n - i,
    {
        assert(pos + size * i + size <= len) by (nonlinear_arith)
            requires
                i < n,
                pos + size * n <= len,
        ;
        let x = T::read(input, pos + size * i);
        out.push(x);
        i = i + 1;
        proof {
            assert(out@ =~= records_at::<T>(input@, pos as int, i as nat));
        }
    }
    Some((out, pos + size * n as usize))
}

/// Appends the stored forms of the records.
pub fn push_records<T: FixedRecord>(out: &mut Vec<u8>, v: &Vec<T>)
    ensures
        final(out)@ == old(out)@ + records_bytes(v@),
{
    let mut k: usize = 0;
    while k < v.len()
        invariant
            k <= v@.len(),
            out@ == old(out)@ + records_bytes(v@.take(k as int)),
        decreases v@.len() - k,
    {
        v[k].write(out);
        k = k + 1;
        proof {
            assert(v@.take(k as int).drop_last() =~= v@.take(k - 1));
            assert(out@ =~= old(out)@ + records_bytes(v@.take(k as int)));
        }
    }
    proof {
        assert(v@.take(k as int) =~= v@);
    }
}

impl FixedRecord for u32 {
    open spec fn spec_size() -> nat {
        4
    }

    open spec fn spec_decode(s: Seq<u8>) -> Self {
        u32_at(s, 0)
    }

    open spec fn spec_encode(&self) -> Seq<u8> {
        le_u32(*self)
    }

    open spec fn spec_wf(&self) -> bool {
        true
    }

    proof fn lemma_decode_encode(x: Self, tail: Seq<u8>) {
        let s = x.spec_encode() + tail;
        lemma_u32_roundtrip(x);
        assert(s.subrange(0, 4) =~= le_u32(x));
        lemma_u32_field(s, 0, x);
    }

    proof fn lemma_encode_decode(s: Seq<u8>) {
        lemma_u32_bytes(s, 0);
        assert(Self::spec_decode(s).spec_encode() =~= s.take(4));
    }

    fn size() -> (r: usize) {
        4
    }

    fn read(input: &[u8], pos: usize) -> (r: Self) {
        let r = read_u32(input, pos);
        assert(u32_at(input@, pos as int) == u32_at(input@.skip(pos as int), 0));
        r
    }

    fn write(&self, out: &mut Vec<u8>) {
        push_u32(out, *self);
    }
}

impl FixedRecord for (i16, i16) {
    open spec fn spec_size() -> nat {
        4
    }

    open spec fn spec_decode(s: Seq<u8>) -> Self {
        (i16_at(s, 0), i16_at(s, 2))
    }

    open spec fn spec_encode(&self) -> Seq<u8> {
        le_i16(self.0) + le_i16(self.1)
    }

    open spec fn spec_wf(&self) -> bool {
        true
    }

    proof fn lemma_decode_encode(x: Self, tail: Seq<u8>) {
        let s = x.spec_encode() + tail;
        lemma_u16_roundtrip(i16_bits(x.0));
        assert(s.subrange(0, 2) =~= le_u16(i16_bits(x.0)));
        lemma_u16_field(s, 0, i16_bits(x.0));
        lemma_i16_bits(x.0);
        lemma_u16_roundtrip(i16_bits(x.1));
        assert(s.subrange(2, 4) =~= le_u16(i16_bits(x.1)));
        lemma_u16_field(s, 2, i16_bits(x.1));
        lemma_i16_bits(x.1);
    }

    proof fn lemma_encode_decode(s: Seq<u8>) {
        lemma_u16_bytes(s, 0);
        lemma_bits_i16(u16_at(s, 0));
        lemma_u16_bytes(s, 2);
        lemma_bits_i16(u16_at(s, 2));
        assert(Self::spec_decode(s).spec_encode() =~= s.take(4));
    }

    fn size() -> (r: usize) {
        4
    }

    fn read(input: &[u8], pos: usize) -> (r: Self) {
        let ghost t = input@.skip(pos as int);
        let len = input.len();
        let r = (read_i16(input, pos), read_i16(input, pos + 2));
        assert(i16_at(input@, pos as int) == i16_at(t, 0));
        assert(i16_at(input@, pos + 2) == i16_at(t, 2));
        r
    }

    fn write(&self, out: &mut Vec<u8>) {
        push_i16(out, self.0);
        push_i16(out, self.1);
        assert(out@ =~= old(out)@ + self.spec_encode());
    }
}

impl FixedRecord for (i16, i16, i16) {
    open spec fn spec_size() -> nat {
        6
    }

    open spec fn spec_decode(s: Seq<u8>) -> Self {
        (i16_at(s, 0), i16_at(s, 2), i16_at(s, 4))
    }

    open spec fn spec_encode(&self) -> Seq<u8> {
        le_i16(self.0) + le_i16(self.1) + le_i16(self.2)
    }

    open spec fn spec_wf(&self) -> bool {
        true
    }

    proof fn lemma_decode_encode(x: Self, tail: Seq<u8>) {
        let s = x.spec_encode() + tail;
        lemma_u16_roundtrip(i16_bits(x.0));
        assert(s.subrange(0, 2) =~= le_u16(i16_bits(x.0)));
        lemma_u16_field(s, 0, i16_bits(x.0));
        lemma_i16_bits(x.0);
        lemma_u16_roundtrip(i16_bits(x.1));
        assert(s.subrange(2, 4) =~= le_u16(i16_bits(x.1)));
        lemma_u16_field(s, 2, i16_bits(x.1));
        lemma_i16_bits(x.1);
        lemma_u16_roundtrip(i16_bits(x.2));
        assert(s.subrange(4, 6) =~= le_u16(i16_bits(x.2)));
        lemma_u16_field(s, 4, i16_bits(x.2));
        lemma_i16_bits(x.2);
    }

    proof fn lemma_encode_decode(s: Seq<u8>) {
        lemma_u16_bytes(s, 0);
        lemma_bits_i16(u16_at(s, 0));
        lemma_u16_bytes(s, 2);
        lemma_bits_i16(u16_at(s, 2));
        lemma_u16_bytes(s, 4);
        lemma_bits_i16(u16_at(s, 4));
        assert(Self::spec_decode(s).spec_encode() =~= s.take(6));
    }

    fn size() -> (r: usize) {
        6
    }

    fn read(input: &[u8], pos: usize) -> (r: Self) {
        let ghost t = input@.skip(pos as int);
        let len = input.len();
        let r = (read_i16(input, pos), read_i16(input, pos + 2), read_i16(input, pos + 4));
        assert(i16_at(input@, pos as int) == i16_at(t, 0));
        assert(i16_at(input@, pos + 2) == i16_at(t, 2));
        assert(i16_at(input@, pos + 4) == i16_at(t, 4));
        r
    }

    fn write(&self, out: &mut Vec<u8>) {
        push_i16(out, self.0);
        push_i16(out, self.1);
        push_i16(out, self.2);
        assert(out@ =~= old(out)@ + self.spec_encode());
    }
}

impl FixedRecord for (i8, i8, i8) {
    open spec fn spec_size() -> nat {
        3
    }

    open spec fn spec_decode(s: Seq<u8>) -> Self {
        (i8_of_bits(s[0]), i8_of_bits(s[1]), i8_of_bits(s[2]))
    }

    open spec fn spec_encode(&self) -> Seq<u8> {
        seq![i8_bits(self.0), i8_bits(self.1), i8_bits(self.2)]
    }

    open spec fn spec_wf(&self) -> bool {
        true
    }

    proof fn lemma_decode_encode(x: Self, tail: Seq<u8>) {
        lemma_i8_bits(x.0);
        lemma_i8_bits(x.1);
        lemma_i8_bits(x.2);
    }

    proof fn lemma_encode_decode(s: Seq<u8>) {
        lemma_bits_i8(s[0]);
        lemma_bits_i8(s[1]);
        lemma_bits_i8(s[2]);
        assert(Self::spec_decode(s).spec_encode() =~= s.take(3));
    }

    fn size() -> (r: usize) {
        3
    }

    fn read(input: &[u8], pos: usize) -> (r: Self) {
        let len = input.len();
        (bits_to_i8(input[pos]), bits_to_i8(input[pos + 1]), bits_to_i8(input[pos + 2]))
    }

    fn write(&self, out: &mut Vec<u8>) {
        out.push(i8_to_bits(self.0));
        out.push(i8_to_bits(self.1));
        out.push(i8_to_bits(self.2));
        assert(out@ =~= old(out)@ + self.spec_encode());
    }
}

impl FixedRecord for (u16, u16) {
    open spec fn spec_size() -> nat {
        4
    }

    open spec fn spec_decode(s: Seq<u8>) -> Self {
        (u16_at(s, 0), u16_at(s, 2))
    }

    open spec fn spec_encode(&self) -> Seq<u8> {
        le_u16(self.0) + le_u16(self.1)
    }

    open spec fn spec_wf(&self) -> bool {
        true
    }

    proof fn lemma_decode_encode(x: Self, tail: Seq<u8>) {
        let s = x.spec_encode() + tail;
        lemma_u16_roundtrip(x.0);
        assert(s.subrange(0, 2) =~= le_u16(x.0));
        lemma_u16_field(s, 0, x.0);
        lemma_u16_roundtrip(x.1);
        assert(s.subrange(2, 4) =~= le_u16(x.1));
        lemma_u16_field(s, 2, x.1);
    }

    proof fn lemma_encode_decode(s: Seq<u8>) {
        lemma_u16_bytes(s, 0);
        lemma_u16_bytes(s, 2);
        assert(Self::spec_decode(s).spec_encode() =~= s.take(4));
    }

    fn size() -> (r: usize) {
        4
    }

    fn read(input: &[u8], pos: usize) -> (r: Self) {
        let ghost t = input@.skip(pos as int);
        let len = input.len();
        let r = (read_u16(input, pos), read_u16(input, pos + 2));
        assert(u16_at(input@, pos as int) == u16_at(t, 0));
        assert(u16_at(input@, pos + 2) == u16_at(t, 2));
        r
    }

    fn write(&self, out: &mut Vec<u8>) {
        push_u16(out, self.0);
        push_u16(out, self.1);
        assert(out@ =~= old(out)@ + self.spec_encode());
    }
}

/// Where a count and that many records stored from `p` end, if they are all there.
pub open spec fn counted_end<T: FixedRecord>(s: Seq<u8>, p: int) -> Option<int> {
    if s.len() >= p + 4 && s.len() >= p + 4 + T::spec_size() * u32_at(s, p) {
        Some(p + 4 + T::spec_size() * u32_at(s, p))
    } else {
        None
    }
}

/// Reads a count and that many records from `pos` when `present`; returns
/// the count, the records and where they end.
pub fn parse_counted<T: FixedRecord>(input: &[u8], pos: usize, present: bool) -> (r: Option<(Option<u32>, Option<Vec<T>>, usize)>)
    ensures
        !present ==> (r matches Some((c, v, end)) && c is None && v is None && end == pos),
        present ==> match counted_end::<T>(input@, pos as int) {
            Some(e) => r matches Some((Some(c), Some(v), end)) && c == u32_at(input@, pos as int)
                && v@ == records_at::<T>(input@, pos + 4, c as nat) && end == e,
            None => r is None,
        },
{
    if !present {
        return Some((None, None, pos));
    }
    let len = input.len();
    if pos > len || len - pos < 4 {
        return None;
    }
    let c = read_u32(input, pos);
    match parse_records::<T>(input, pos + 4, c) {
        Some((v, end)) => Some((Some(c), Some(v), end)),
        None => None,
    }
}

/// The stored form of an optional count and optional records.
pub open spec fn counted_bytes<T: FixedRecord>(c: Option<u32>, v: Option<Vec<T>>) -> Seq<u8> {
    (match c {
        Some(n) => le_u32(n),
        None => Seq::empty(),
    }) + (match v {
        Some(x) => records_bytes(x@),
        None => Seq::empty(),
    })
}

/// Appends the count and the records, when there are any.
pub fn push_counted<T: FixedRecord>(out: &mut Vec<u8>, c: Option<u32>, v: &Option<Vec<T>>)
    ensures
        final(out)@ == old(out)@ + counted_bytes(c, *v),
{
    let ghost start = out@;
    match c {
        Some(n) => push_u32(out, n),
        None => {},
    }
    let ghost mid = out@;
    match v {
        Some(x) => push_records(out, x),
        None => {},
    }
    proof {
        assert(mid =~= start + (match c { Some(n) => le_u32(n), None => Seq::<u8>::empty() }));
        assert(out@ =~= mid + (match v { Some(x) => records_bytes(x@), None => Seq::<u8>::empty() }));
    }
}

impl FixedRecord for (u32, u32) {
    open spec fn spec_size() -> nat {
        8
    }

    open spec fn spec_decode(s: Seq<u8>) -> Self {
        (u32_at(s, 0), u32_at(s, 4))
    }

    open spec fn spec_encode(&self) -> Seq<u8> {
        le_u32(self.0) + le_u32(self.1)
    }

    open spec fn spec_wf(&self) -> bool {
        true
    }

    proof fn lemma_decode_encode(x: Self, tail: Seq<u8>) {
        let s = x.spec_encode() + tail;
        lemma_u32_roundtrip(x.0);
        assert(s.subrange(0, 4) =~= le_u32(x.0));
        lemma_u32_field(s, 0, x.0);
        lemma_u32_roundtrip(x.1);
        assert(s.subrange(4, 8) =~= le_u32(x.1));
        lemma_u32_field(s, 4, x.1);
    }

    proof fn lemma_encode_decode(s: Seq<u8>) {
        lemma_u32_bytes(s, 0);
        lemma_u32_bytes(s, 4);
        assert(Self::spec_decode(s).spec_encode() =~= s.take(8));
    }

    fn size() -> (r: usize) {
        8
    }

    fn read(input: &[u8], pos: usize) -> (r: Self) {
        let ghost t = input@.skip(pos as int);
        let len = input.len();
        let r = (read_u32(input, pos), read_u32(input, pos + 4));
        assert(u32_at(input@, pos as int) == u32_at(t, 0));
        assert(u32_at(input@, pos + 4) == u32_at(t, 4));
        r
    }

    fn write(&self, out: &mut Vec<u8>) {
        push_u32(out, self.0);
        push_u32(out, self.1);
        assert(out@ =~= old(out)@ + self.spec_encode());
    }
}

impl FixedRecord for (u32, u32, u32) {
    open spec fn spec_size() -> nat {
        12
    }

    open spec fn spec_decode(s: Seq<u8>) -> Self {
        (u32_at(s, 0), u32_at(s, 4), u32_at(s, 8))
    }

    open spec fn spec_encode(&self) -> Seq<u8> {
        le_u32(self.0) + le_u32(self.1) + le_u32(self.2)
    }

    open spec fn spec_wf(&self) -> bool {
        true
    }

    proof fn lemma_decode_encode(x: Self, tail: Seq<u8>) {
        let s = x.spec_encode() + tail;
        lemma_u32_roundtrip(x.0);
        assert(s.subrange(0, 4) =~= le_u32(x.0));
        lemma_u32_field(s, 0, x.0);
        lemma_u32_roundtrip(x.1);
        assert(s.subrange(4, 8) =~= le_u32(x.1));
        lemma_u32_field(s, 4, x.1);
        lemma_u32_roundtrip(x.2);
        assert(s.subrange(8, 12) =~= le_u32(x.2));
        lemma_u32_field(s, 8, x.2);
    }

    proof fn lemma_encode_decode(s: Seq<u8>) {
        lemma_u32_bytes(s, 0);
        lemma_u32_bytes(s, 4);
        lemma_u32_bytes(s, 8);
        assert(Self::spec_decode(s).spec_encode() =~= s.take(12));
    }

    fn size() -> (r: usize) {
        12
    }

    fn read(input: &[u8], pos: usize) -> (r: Self) {
        let ghost t = input@.skip(pos as int);
        let len = input.len();
        let r = (read_u32(input, pos), read_u32(input, pos + 4), read_u32(input, pos + 8));
        assert(u32_at(input@, pos as int) == u32_at(t, 0));
        assert(u32_at(input@, pos + 4) == u32_at(t, 4));
        assert(u32_at(input@, pos + 8) == u32_at(t, 8));
        r
    }

    fn write(&self, out: &mut Vec<u8>) {
        push_u32(out, self.0);
        push_u32(out, self.1);
        push_u32(out, self.2);
        assert(out@ =~= old(out)@ + self.spec_encode());
    }
}

impl FixedRecord for u16 {
    open spec fn spec_size() -> nat {
        2
    }

    open spec fn spec_decode(s: Seq<u8>) -> Self {
        u16_at(s, 0)
    }

    open spec fn spec_encode(&self) -> Seq<u8> {
        le_u16(*self)
    }

    open spec fn spec_wf(&self) -> bool {
        true
    }

    proof fn lemma_decode_encode(x: Self, tail: Seq<u8>) {
        let s = x.spec_encode() + tail;
        lemma_u16_roundtrip(x);
        assert(s.subrange(0, 2) =~= le_u16(x));
        lemma_u16_field(s, 0, x);
    }

    proof fn lemma_encode_decode(s: Seq<u8>) {
        lemma_u16_bytes(s, 0);
        assert(Self::spec_decode(s).spec_encode() =~= s.take(2));
    }

    fn size() -> (r: usize) {
        2
    }

    fn read(input: &[u8], pos: usize) -> (r: Self) {
        let r = read_u16(input, pos);
        assert(u16_at(input@, pos as int) == u16_at(input@.skip(pos as int), 0));
        r
    }

    fn write(&self, out: &mut Vec<u8>) {
        push_u16(out, *self);
    }
}

} // verus!
