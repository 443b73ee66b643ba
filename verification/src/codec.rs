//! TLV attribute codec.
//!
//! Netlink carries options as type-length-value attributes: a four-byte
//! header (little-endian length including the header, then the type code)
//! followed by the payload, padded with zero bytes up to the next four-byte
//! boundary.  Attributes nest by using an encoded child sequence as the
//! parent's payload.

use vstd::prelude::*;

use crate::err::NlError;

verus! {

/// Bytes of `x` in little-endian order.
pub open spec fn spec_u16_le(x: u16) -> Seq<u8> {
    seq![(x % 256) as u8, (x / 256) as u8]
}

/// The value whose little-endian bytes are `lo`, `hi`.
pub open spec fn spec_u16_from_le(lo: u8, hi: u8) -> u16 {
    (lo + hi * 256) as u16
}

/// Bytes of `x` in little-endian order.
pub open spec fn spec_u32_le(x: u32) -> Seq<u8> {
    seq![
        (x % 256) as u8,
        ((x / 256) % 256) as u8,
        ((x / 65536) % 256) as u8,
        (x / 16777216) as u8,
    ]
}

/// The value whose little-endian bytes are `b0..b3`.
pub open spec fn spec_u32_from_le(b0: u8, b1: u8, b2: u8, b3: u8) -> u32 {
    (b0 + b1 * 256 + b2 * 65536 + b3 * 16777216) as u32
}

/// Reading back the bytes of a value gives the value.
pub proof fn lemma_u16_le_round_trip(x: u16)
    ensures
        spec_u16_from_le(spec_u16_le(x)[0], spec_u16_le(x)[1]) == x,
{
}

/// Reading back the bytes of a value gives the value.
pub proof fn lemma_u32_le_round_trip(x: u32)
    ensures
        spec_u32_from_le(
            spec_u32_le(x)[0],
            spec_u32_le(x)[1],
            spec_u32_le(x)[2],
            spec_u32_le(x)[3],
        ) == x,
{
}

pub fn push_u16_le(out: &mut Vec<u8>, x: u16)
    ensures
        final(out)@ == old(out)@ + spec_u16_le(x),
{
    out.push((x % 256) as u8);
    out.push((x / 256) as u8);
    assert(out@ =~= old(out)@ + spec_u16_le(x));
}

pub fn push_u32_le(out: &mut Vec<u8>, x: u32)
    ensures
        final(out)@ == old(out)@ + spec_u32_le(x),
{
    out.push((x % 256) as u8);
    out.push(((x / 256) % 256) as u8);
    out.push(((x / 65536) % 256) as u8);
    out.push((x / 16777216) as u8);
    assert(out@ =~= old(out)@ + spec_u32_le(x));
}

pub fn read_u16_le(b: &[u8], i: usize) -> (r: u16)
    requires
        i + 2 <= b@.len(),
    ensures
        r == spec_u16_from_le(b@[i as int], b@[i + 1]),
{
    b[i] as u16 + b[i + 1] as u16 * 256
}

pub fn read_u32_le(b: &[u8], i: usize) -> (r: u32)
    requires
        i + 4 <= b@.len(),
    ensures
        r == spec_u32_from_le(b@[i as int], b@[i + 1], b@[i + 2], b@[i + 3]),
{
    b[i] as u32 + b[i + 1] as u32 * 256 + b[i + 2] as u32 * 65536 + b[i + 3] as u32 * 16777216
}

/// `n` rounded up to the next multiple of four.
pub open spec fn spec_align4(n: int) -> int {
    ((n + 3) / 4) * 4
}

/// Number of padding bytes after a region of `n` bytes.
pub open spec fn spec_pad4(n: int) -> int {
    spec_align4(n) - n
}

pub proof fn lemma_align4(n: int)
    requires
        n >= 0,
    ensures
        n <= spec_align4(n) < n + 4,
        spec_align4(n) % 4 == 0,
        n % 4 == 0 ==> spec_align4(n) == n,
{
}

/// A sequence of `n` zero bytes.
pub open spec fn seq_zeros(n: int) -> Seq<u8> {
    Seq::new(n as nat, |i: int| 0u8)
}

/// One TLV attribute: a type code and its raw payload bytes.  A nested
/// attribute tree is an attribute whose payload is the encoding of its
/// children, built up with [`Attribute::add_nested`].
pub struct Attribute {
    pub type_code: u16,
    pub payload: Vec<u8>,
}

impl View for Attribute {
    type V = (u16, Seq<u8>);

    open spec fn view(&self) -> (u16, Seq<u8>) {
        (self.type_code, self.payload@)
    }
}

/// The encoded length field of an attribute: header plus payload.
pub open spec fn spec_attr_len(p: Seq<u8>) -> int {
    4 + p.len() as int
}

/// The full wire form of one attribute, padding included.
pub open spec fn spec_attr_encode(t: u16, p: Seq<u8>) -> Seq<u8> {
    spec_u16_le(spec_attr_len(p) as u16) + spec_u16_le(t) + p + seq_zeros(spec_pad4(spec_attr_len(p)))
}

impl Attribute {
    /// The length field must fit in its sixteen bits.
    pub open spec fn wf(&self) -> bool {
        spec_attr_len(self.payload@) <= 0xFFFF
    }

    /// Build a leaf attribute from a type code and raw payload bytes.
    pub fn encode(type_code: u16, payload: Vec<u8>) -> (r: Attribute)
        requires
            payload@.len() + 4 <= 0xFFFF,
        ensures
            r@ == (type_code, payload@),
            r.wf(),
    {
        Attribute { type_code, payload }
    }

    /// Append one child to this attribute's payload, in wire form; the
    /// enclosing length (recomputed from the payload at encoding time)
    /// grows with every child appended.
    pub fn add_nested(&mut self, child: &Attribute)
        requires
            old(self).wf(),
            child.wf(),
            spec_attr_len(old(self).payload@) + spec_align4(spec_attr_len(child.payload@)) <= 0xFFFF,
        ensures
            final(self).type_code == old(self).type_code,
            final(self).payload@ == old(self).payload@ + spec_attr_encode(child.type_code, child.payload@),
            final(self).wf(),
    {
        append_attr(&mut self.payload, child);
        proof {
            lemma_align4(spec_attr_len(child.payload@));
        }
    }
}

/// Append the wire form of `a` to `out`.
pub fn append_attr(out: &mut Vec<u8>, a: &Attribute)
    requires
        a.wf(),
    ensures
        final(out)@ == old(out)@ + spec_attr_encode(a.type_code, a.payload@),
{
    proof {
        lemma_align4(spec_attr_len(a.payload@));
    }
    let len: u16 = (a.payload.len() + 4) as u16;
    push_u16_le(out, len);
    push_u16_le(out, a.type_code);
    let mut k: usize = 0;
    while k < a.payload.len()
        invariant
            k <= a.payload@.len(),
            a.wf(),
            out@ == old(out)@ + spec_u16_le(spec_attr_len(a.payload@) as u16) + spec_u16_le(
                a.type_code,
            ) + a.payload@.take(k as int),
        decreases a.payload@.len() - k,
    {
        out.push(a.payload[k]);
        k = k + 1;
        assert(a.payload@.take(k as int) =~= a.payload@.take(k as int - 1) + seq![a.payload@[k - 1]]);
        assert(out@ =~= old(out)@ + spec_u16_le(spec_attr_len(a.payload@) as u16) + spec_u16_le(
            a.type_code,
        ) + a.payload@.take(k as int));
    }
    assert(a.payload@.take(a.payload@.len() as int) =~= a.payload@);
    let pad: usize = pad4_of(a.payload.len() + 4);
    let mut j: usize = 0;
    while j < pad
        invariant
            j <= pad,
            pad == spec_pad4(spec_attr_len(a.payload@)),
            out@ == old(out)@ + spec_u16_le(spec_attr_len(a.payload@) as u16) + spec_u16_le(
                a.type_code,
            ) + a.payload@ + seq_zeros(j as int),
        decreases pad - j,
    {
        out.push(0u8);
        j = j + 1;
        assert(seq_zeros(j as int) =~= seq_zeros(j as int - 1) + seq![0u8]);
        assert(out@ =~= old(out)@ + spec_u16_le(spec_attr_len(a.payload@) as u16) + spec_u16_le(
            a.type_code,
        ) + a.payload@ + seq_zeros(j as int));
    }
    assert(out@ =~= old(out)@ + spec_attr_encode(a.type_code, a.payload@));
}

/// The wire form of an attribute is its aligned length: at least header
/// plus payload, and less than four bytes more.
pub proof fn lemma_attr_encode_len(t: u16, p: Seq<u8>)
    ensures
        spec_attr_encode(t, p).len() == spec_align4(spec_attr_len(p)),
        spec_attr_len(p) <= spec_attr_encode(t, p).len() < spec_attr_len(p) + 4,
{
    lemma_align4(spec_attr_len(p));
}

/// The models of a sequence of attributes.
pub open spec fn attrs_models(s: Seq<Attribute>) -> Seq<(u16, Seq<u8>)> {
    s.map_values(|a: Attribute| a@)
}

/// The attributes encoded in a flat buffer, in order, or `None` when the
/// framing is violated: a leftover shorter than a header, a declared length
/// below the header size, or a declared length that runs past the buffer.
/// Between entries the walk skips ahead to the next four-byte boundary; the
/// final entry's padding may be cut short by the end of the buffer.
pub open spec fn spec_parse_attrs(b: Seq<u8>) -> Option<Seq<(u16, Seq<u8>)>>
    decreases b.len(),
{
    if b.len() == 0 {
        Some(Seq::empty())
    } else if b.len() < 4 {
        None
    } else {
        let l = spec_u16_from_le(b[0], b[1]) as int;
        let t = spec_u16_from_le(b[2], b[3]);
        if l < 4 || l > b.len() {
            None
        } else {
            let adv = if spec_align4(l) <= b.len() {
                spec_align4(l)
            } else {
                b.len() as int
            };
            match spec_parse_attrs(b.skip(adv)) {
                Some(rest) => Some(seq![(t, b.subrange(4, l))] + rest),
                None => None,
            }
        }
    }
}

/// Walk a flat buffer and decode every attribute in it.
pub fn decode_attrs(b: &[u8]) -> (r: Result<Vec<Attribute>, NlError>)
    ensures
        match r {
            Ok(v) => spec_parse_attrs(b@) == Some(attrs_models(v@)) && (forall|i: int|
                0 <= i < v@.len() ==> (#[trigger] v@[i]).wf()),
            Err(e) => e == NlError::Malformed && spec_parse_attrs(b@) is None,
        },
{
    let mut acc: Vec<Attribute> = Vec::new();
    let mut i: usize = 0;
    proof {
        assert(b@.skip(0) =~= b@);
        match spec_parse_attrs(b@) {
            Some(rest) => {
                assert(attrs_models(acc@) + rest =~= rest);
            },
            None => {},
        }
    }
    loop
        invariant
            i <= b@.len(),
            forall|k: int| 0 <= k < acc@.len() ==> (#[trigger] acc@[k]).wf(),
            match spec_parse_attrs(b@.skip(i as int)) {
                Some(rest) => spec_parse_attrs(b@) == Some(attrs_models(acc@) + rest),
                None => spec_parse_attrs(b@) is None,
            },
        decreases b@.len() - i,
    {
        let rem: usize = b.len() - i;
        if rem == 0 {
            assert(b@.skip(i as int) =~= Seq::<u8>::empty());
            assert(attrs_models(acc@) + Seq::empty() =~= attrs_models(acc@));
            return Ok(acc);
        }
        assert(b@.skip(i as int).len() == rem);
        if rem < 4 {
            return Err(NlError::Malformed);
        }
        assert(b@.skip(i as int)[0] == b@[i as int]);
        assert(b@.skip(i as int)[1] == b@[i as int + 1]);
        assert(b@.skip(i as int)[2] == b@[i as int + 2]);
        assert(b@.skip(i as int)[3] == b@[i as int + 3]);
        let l: usize = read_u16_le(b, i) as usize;
        let t: u16 = read_u16_le(b, i + 2);
        if l < 4 || l > rem {
            return Err(NlError::Malformed);
        }
        let end: usize = i + l;
        let mut payload: Vec<u8> = Vec::new();
        let mut j: usize = i + 4;
        while j < end
            invariant
                i + 4 <= j <= end,
                end == i + l,
                end <= b@.len(),
                payload@ == b@.subrange(i as int + 4, j as int),
            decreases end - j,
        {
            payload.push(b[j]);
            j = j + 1;
            assert(payload@ =~= b@.subrange(i as int + 4, j as int));
        }
        assert(b@.skip(i as int).subrange(4, l as int) =~= b@.subrange(i as int + 4, i as int + l));
        let a = Attribute { type_code: t, payload };
        let ghost old_models = attrs_models(acc@);
        acc.push(a);
        proof {
            assert(attrs_models(acc@) =~= old_models + seq![a@]);
        }
        let al: usize = (l + 3) / 4 * 4;
        let next: usize = if al <= rem {
            i + al
        } else {
            b.len()
        };
        proof {
            lemma_align4(l as int);
            let adv = next - i;
            assert(b@.skip(i as int).skip(adv as int) =~= b@.skip(next as int));
            match spec_parse_attrs(b@.skip(next as int)) {
                Some(rest2) => {
                    assert(spec_parse_attrs(b@.skip(i as int)) == Some(
                        seq![(t, b@.skip(i as int).subrange(4, l as int))] + rest2,
                    ));
                    assert((old_models + (seq![a@] + rest2)) =~= (old_models + seq![a@]) + rest2);
                },
                None => {
                    assert(spec_parse_attrs(b@.skip(i as int)) is None);
                },
            }
        }
        i = next;
    }
}

/// Parsing a buffer that begins with the wire form of one attribute yields
/// that attribute followed by whatever the remainder holds.
pub proof fn lemma_parse_prepend_attr(t: u16, p: Seq<u8>, rest: Seq<u8>)
    requires
        4 + p.len() <= 0xFFFF,
    ensures
        spec_parse_attrs(spec_attr_encode(t, p) + rest) == match spec_parse_attrs(rest) {
            Some(r) => Some(seq![(t, p)] + r),
            None => None::<Seq<(u16, Seq<u8>)>>,
        },
{
    let enc = spec_attr_encode(t, p);
    let whole = enc + rest;
    let l = spec_attr_len(p);
    lemma_align4(l);
    assert(enc.len() == spec_align4(l));
    lemma_u16_le_round_trip(l as u16);
    assert(whole[0] == spec_u16_le(l as u16)[0]);
    assert(whole[1] == spec_u16_le(l as u16)[1]);
    assert(whole[2] == spec_u16_le(t)[0]);
    assert(whole[3] == spec_u16_le(t)[1]);
    lemma_u16_le_round_trip(t);
    assert(spec_u16_from_le(whole[0], whole[1]) == l);
    assert(spec_u16_from_le(whole[2], whole[3]) == t);
    assert(whole.subrange(4, l) =~= p);
    if rest.len() == 0 {
        assert(whole.len() == spec_align4(l));
        assert(whole.skip(spec_align4(l)) =~= rest);
    } else {
        assert(spec_align4(l) <= whole.len());
        assert(whole.skip(spec_align4(l)) =~= rest);
    }
}

/// Padding that follows a region of `n` bytes.
pub fn pad4_of(n: usize) -> (r: usize)
    requires
        n + 3 <= usize::MAX,
    ensures
        r == spec_pad4(n as int),
{
    (n + 3) / 4 * 4 - n
}

} // verus!
