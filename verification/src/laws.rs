//! The laws the codec obeys, stated once and proved for every input.
//!
//! Whether the kernel honours a request is the kernel's affair; what can
//! be promised here is that the bytes this library emits mean what the
//! operations say, and that parsing a reply built from any well-formed
//! attribute run reads back exactly what the run holds.

use vstd::prelude::*;
use vstd::utf8::{
    encode_scalar, encode_utf8, encode_utf8_decode_utf8, encode_utf8_valid_utf8,
    has_width_1_encoding,
};

use crate::codec::{
    lemma_parse_prepend_attr, lemma_u16_le_round_trip, lemma_u32_le_round_trip, spec_parse_attrs,
    spec_u32_le,
};
use crate::iface::{DetailsModel, Mtu};
use crate::link::{
    spec_attrs_encode, spec_frame, spec_ifinfomsg, spec_nlmsghdr, IFLA_IFNAME, IFLA_MTU,
    RTM_NEWLINK,
};
use crate::reply::{spec_fold_details, spec_name_decode, spec_parse_details};

verus! {

/// Decoding an encoded attribute run gives the run back: the codec's
/// round trip, for every run whose payloads fit their length fields.
pub proof fn lemma_attrs_round_trip(ams: Seq<(u16, Seq<u8>)>)
    requires
        forall|i: int| 0 <= i < ams.len() ==> 4 + (#[trigger] ams[i]).1.len() <= 0xFFFF,
    ensures
        spec_parse_attrs(spec_attrs_encode(ams)) == Some(ams),
    decreases ams.len(),
{
    if ams.len() == 0 {
        assert(spec_attrs_encode(ams) =~= Seq::<u8>::empty());
    } else {
        lemma_attrs_round_trip(ams.drop_first());
        lemma_parse_prepend_attr(ams[0].0, ams[0].1, spec_attrs_encode(ams.drop_first()));
        assert(ams[0] == (ams[0].0, ams[0].1));
        assert(seq![ams[0]] + ams.drop_first() =~= ams);
    }
}

/// No byte of the UTF-8 encoding of a nonzero scalar is zero.
proof fn lemma_encode_scalar_nonzero(scalar: u32)
    requires
        scalar != 0,
    ensures
        forall|i: int|
            0 <= i < encode_scalar(scalar).len() ==> #[trigger] encode_scalar(scalar)[i] != 0,
{
    if has_width_1_encoding(scalar) {
        assert((scalar & 0x7F) as u8 != 0) by (bit_vector)
            requires
                scalar != 0 && scalar <= 0x7F,
        ;
    } else {
        assert(0xC0u8 | ((scalar >> 6) & 0x1F) as u8 != 0) by (bit_vector);
        assert(0xE0u8 | ((scalar >> 12) & 0x0F) as u8 != 0) by (bit_vector);
        assert(0xF0u8 | ((scalar >> 18) & 0x7) as u8 != 0) by (bit_vector);
        assert(0x80u8 | (scalar & 0x3F) as u8 != 0) by (bit_vector);
        assert(0x80u8 | ((scalar >> 6) & 0x3F) as u8 != 0) by (bit_vector);
        assert(0x80u8 | ((scalar >> 12) & 0x3F) as u8 != 0) by (bit_vector);
    }
}

/// No byte of the UTF-8 encoding of a text without NUL characters is
/// zero.
pub proof fn lemma_encode_utf8_nonzero(chars: Seq<char>)
    requires
        forall|i: int| 0 <= i < chars.len() ==> chars[i] != '\0',
    ensures
        forall|i: int|
            0 <= i < encode_utf8(chars).len() ==> #[trigger] encode_utf8(chars)[i] != 0,
    decreases chars.len(),
{
    if chars.len() != 0 {
        if chars[0] as u32 == 0 {
            vstd::utf8::char_u32_cast(chars[0], 0u32);
            vstd::utf8::char_u32_cast('\0', 0u32);
            assert(false);
        }
        lemma_encode_scalar_nonzero(chars[0] as u32);
        lemma_encode_utf8_nonzero(chars.drop_first());
        let head = encode_scalar(chars[0] as u32);
        let tail = encode_utf8(chars.drop_first());
        assert forall|i: int| 0 <= i < encode_utf8(chars).len() implies #[trigger] encode_utf8(
            chars,
        )[i] != 0 by {
            if i < head.len() {
                assert(encode_utf8(chars)[i] == head[i]);
            } else {
                assert(encode_utf8(chars)[i] == tail[i - head.len()]);
            }
        }
    }
}

/// A name without NUL characters survives the wire round trip: encode it
/// as an interface-name attribute payload (its UTF-8 bytes, NUL
/// terminated) and decoding gives the name back, character for character.
pub proof fn lemma_name_round_trip(chars: Seq<char>)
    requires
        forall|i: int| 0 <= i < chars.len() ==> chars[i] != '\0',
    ensures
        spec_name_decode(encode_utf8(chars).push(0u8)) == Some(chars),
{
    let bytes = encode_utf8(chars);
    let p = bytes.push(0u8);
    lemma_encode_utf8_nonzero(chars);
    encode_utf8_valid_utf8(chars);
    encode_utf8_decode_utf8(chars);
    assert(p[p.len() - 1] == 0);
    assert(p.take(p.len() - 1) =~= bytes);
    assert(forall|i: int| 0 <= i < p.len() - 1 ==> p[i] != 0);
}

/// The last MTU attribute of a run decides the snapshot's MTU field:
/// appending one that carries a legal value makes the fold yield that
/// value, whatever came before; the name field is untouched.
pub proof fn lemma_fold_mtu_last(
    ams: Seq<(u16, Seq<u8>)>,
    name0: Option<Seq<char>>,
    mtu0: Option<Mtu>,
    m: Mtu,
)
    ensures
        spec_fold_details(ams.push((IFLA_MTU, spec_u32_le(m.spec_value()))), name0, mtu0) == (
            spec_fold_details(ams, name0, mtu0).0,
            Some(m),
        ),
    decreases ams.len(),
{
    let attr = (IFLA_MTU, spec_u32_le(m.spec_value()));
    lemma_u32_le_round_trip(m.spec_value());
    crate::iface::lemma_mtu_round_trip(m);
    if ams.len() == 0 {
        let run = ams.push(attr);
        assert(run[0] == attr);
        assert(run.drop_first() =~= Seq::<(u16, Seq<u8>)>::empty());
        assert(Mtu::spec_from_raw(
            crate::codec::spec_u32_from_le(attr.1[0], attr.1[1], attr.1[2], attr.1[3]),
        ) == Some(m));
        assert(spec_fold_details(run, name0, mtu0) == spec_fold_details(
            run.drop_first(),
            name0,
            Some(m),
        ));
        assert(spec_fold_details(ams, name0, mtu0) == (name0, mtu0));
    } else {
        assert(ams.push(attr)[0] == ams[0]);
        assert(ams.push(attr).drop_first() =~= ams.drop_first().push(attr));
        let name1 = if ams[0].0 == IFLA_IFNAME {
            match spec_name_decode(ams[0].1) {
                Some(s) => Some(s),
                None => name0,
            }
        } else {
            name0
        };
        let mtu1 = if ams[0].0 == IFLA_MTU && ams[0].1.len() == 4 {
            Mtu::spec_from_raw(
                crate::codec::spec_u32_from_le(ams[0].1[0], ams[0].1[1], ams[0].1[2], ams[0].1[3]),
            )
        } else {
            mtu0
        };
        lemma_fold_mtu_last(ams.drop_first(), name1, mtu1, m);
    }
}

/// The last name attribute of a run decides the snapshot's name field:
/// appending one that carries a NUL-free name makes the fold yield that
/// name, whatever came before; the MTU field is untouched.
pub proof fn lemma_fold_name_last(
    ams: Seq<(u16, Seq<u8>)>,
    name0: Option<Seq<char>>,
    mtu0: Option<Mtu>,
    chars: Seq<char>,
)
    requires
        forall|i: int| 0 <= i < chars.len() ==> chars[i] != '\0',
    ensures
        spec_fold_details(ams.push((IFLA_IFNAME, encode_utf8(chars).push(0u8))), name0, mtu0) == (
            Some(chars),
            spec_fold_details(ams, name0, mtu0).1,
        ),
    decreases ams.len(),
{
    let attr = (IFLA_IFNAME, encode_utf8(chars).push(0u8));
    lemma_name_round_trip(chars);
    if ams.len() == 0 {
        let run = ams.push(attr);
        assert(run[0] == attr);
        assert(run.drop_first() =~= Seq::<(u16, Seq<u8>)>::empty());
        assert(spec_fold_details(run, name0, mtu0) == spec_fold_details(
            run.drop_first(),
            Some(chars),
            mtu0,
        ));
        assert(spec_fold_details(ams, name0, mtu0) == (name0, mtu0));
    } else {
        assert(ams.push(attr)[0] == ams[0]);
        assert(ams.push(attr).drop_first() =~= ams.drop_first().push(attr));
        let name1 = if ams[0].0 == IFLA_IFNAME {
            match spec_name_decode(ams[0].1) {
                Some(s) => Some(s),
                None => name0,
            }
        } else {
            name0
        };
        let mtu1 = if ams[0].0 == IFLA_MTU && ams[0].1.len() == 4 {
            Mtu::spec_from_raw(
                crate::codec::spec_u32_from_le(ams[0].1[0], ams[0].1[1], ams[0].1[2], ams[0].1[3]),
            )
        } else {
            mtu0
        };
        lemma_fold_name_last(ams.drop_first(), name1, mtu1, chars);
    }
}

/// Create-then-query, the codec's half: for any NUL-free name that fits
/// the platform limit, a query reply echoing that name and the default
/// classic MTU parses to exactly that name, `Mtu::Standard`, and the
/// reply's own up bit — nothing dropped, nothing invented.
pub proof fn lemma_created_details_round_trip(
    idx: u32,
    rflags: u16,
    seqno: u32,
    pid: u32,
    family: u8,
    ltype: u16,
    idx2: u32,
    flags: u32,
    change: u32,
    chars: Seq<char>,
)
    requires
        forall|i: int| 0 <= i < chars.len() ==> chars[i] != '\0',
        encode_utf8(chars).len() <= 16,
    ensures
        spec_parse_details(
            idx,
            Some(
                spec_frame(
                    RTM_NEWLINK,
                    rflags,
                    seqno,
                    pid,
                    spec_ifinfomsg(family, ltype, idx2, flags, change) + spec_attrs_encode(
                        seq![
                            (IFLA_IFNAME, encode_utf8(chars).push(0u8)),
                            (IFLA_MTU, spec_u32_le(16u32)),
                        ],
                    ),
                ),
            ),
        ) == Ok::<DetailsModel, crate::err::NlError>(
            DetailsModel {
                name: Some(chars),
                index: idx,
                is_up: flags % 2 == 1,
                mtu: Some(Mtu::Standard),
            },
        ),
{
    let a0 = (IFLA_IFNAME, encode_utf8(chars).push(0u8));
    let a1 = (IFLA_MTU, spec_u32_le(16u32));
    let ams = seq![a0, a1];
    assert(Mtu::Standard.spec_value() == 16u32);
    lemma_fold_mtu_last(seq![a0], None, None, Mtu::Standard);
    assert(seq![a0].push(a1) =~= ams);
    lemma_fold_name_last(Seq::empty(), None, None, chars);
    assert(Seq::<(u16, Seq<u8>)>::empty().push(a0) =~= seq![a0]);
    assert(spec_fold_details(Seq::empty(), None, None) == (
        None::<Seq<char>>,
        None::<Mtu>,
    ));
    assert(spec_fold_details(ams, None, None) == (Some(chars), Some(Mtu::Standard)));
    crate::codec::lemma_attr_encode_len(a0.0, a0.1);
    crate::codec::lemma_attr_encode_len(a1.0, a1.1);
    assert(ams.drop_first() =~= seq![a1]);
    crate::link::lemma_attrs_encode_single(a1.0, a1.1, ams.drop_first());
    assert(spec_attrs_encode(ams).len() <= 0xFFFF);
    lemma_details_of_query_reply(
        idx,
        rflags,
        seqno,
        pid,
        family,
        ltype,
        idx2,
        flags,
        change,
        ams,
    );
}

/// Set-then-query, the codec's half: a query reply whose attribute run
/// ends with the MTU attribute exactly as a set-MTU request encodes it
/// parses back to that MTU, for both values of the allow-list.
pub proof fn lemma_set_mtu_details_round_trip(
    idx: u32,
    rflags: u16,
    seqno: u32,
    pid: u32,
    family: u8,
    ltype: u16,
    idx2: u32,
    flags: u32,
    change: u32,
    m: Mtu,
)
    ensures
        spec_parse_details(
            idx,
            Some(
                spec_frame(
                    RTM_NEWLINK,
                    rflags,
                    seqno,
                    pid,
                    spec_ifinfomsg(family, ltype, idx2, flags, change) + spec_attrs_encode(
                        seq![(IFLA_MTU, spec_u32_le(m.spec_value()))],
                    ),
                ),
            ),
        ) == Ok::<DetailsModel, crate::err::NlError>(
            DetailsModel {
                name: None,
                index: idx,
                is_up: flags % 2 == 1,
                mtu: Some(m),
            },
        ),
{
    let a0 = (IFLA_MTU, spec_u32_le(m.spec_value()));
    let ams = seq![a0];
    lemma_fold_mtu_last(Seq::empty(), None, None, m);
    assert(Seq::<(u16, Seq<u8>)>::empty().push(a0) =~= ams);
    assert(spec_fold_details(Seq::empty(), None, None) == (
        None::<Seq<char>>,
        None::<Mtu>,
    ));
    assert(spec_fold_details(ams, None, None) == (None::<Seq<char>>, Some(m)));
    crate::codec::lemma_attr_encode_len(a0.0, a0.1);
    crate::link::lemma_attrs_encode_single(a0.0, a0.1, ams);
    lemma_details_of_query_reply(
        idx,
        rflags,
        seqno,
        pid,
        family,
        ltype,
        idx2,
        flags,
        change,
        ams,
    );
}

/// Parsing a query reply framed around any well-formed attribute run
/// reads back exactly what the run holds: the snapshot's up state is the
/// flag word's lowest bit, and its name and MTU are the fold of the run —
/// never anything stale, and never a value the run does not carry.
pub proof fn lemma_details_of_query_reply(
    idx: u32,
    rflags: u16,
    seqno: u32,
    pid: u32,
    family: u8,
    ltype: u16,
    idx2: u32,
    flags: u32,
    change: u32,
    ams: Seq<(u16, Seq<u8>)>,
)
    requires
        forall|i: int| 0 <= i < ams.len() ==> 4 + (#[trigger] ams[i]).1.len() <= 0xFFFF,
        spec_attrs_encode(ams).len() <= 0xFFFF,
    ensures
        spec_parse_details(
            idx,
            Some(
                spec_frame(
                    RTM_NEWLINK,
                    rflags,
                    seqno,
                    pid,
                    spec_ifinfomsg(family, ltype, idx2, flags, change) + spec_attrs_encode(ams),
                ),
            ),
        ) == Ok::<DetailsModel, crate::err::NlError>(
            DetailsModel {
                name: spec_fold_details(ams, None, None).0,
                index: idx,
                is_up: flags % 2 == 1,
                mtu: spec_fold_details(ams, None, None).1,
            },
        ),
{
    let ifinfo = spec_ifinfomsg(family, ltype, idx2, flags, change);
    let payload = ifinfo + spec_attrs_encode(ams);
    let mlen = 16 + payload.len() as int;
    let hdr = spec_nlmsghdr(mlen as u32, RTM_NEWLINK, rflags, seqno, pid);
    let b = hdr + payload;
    assert(hdr.len() == 16);
    assert(ifinfo.len() == 16);
    assert(b.len() == mlen);
    lemma_u32_le_round_trip(mlen as u32);
    assert(hdr[0] == spec_u32_le(mlen as u32)[0]);
    assert(hdr[1] == spec_u32_le(mlen as u32)[1]);
    assert(hdr[2] == spec_u32_le(mlen as u32)[2]);
    assert(hdr[3] == spec_u32_le(mlen as u32)[3]);
    assert(b[0] == hdr[0] && b[1] == hdr[1] && b[2] == hdr[2] && b[3] == hdr[3]);
    assert(crate::reply::spec_msg_len(b) == mlen);
    lemma_u16_le_round_trip(RTM_NEWLINK);
    assert(hdr[4] == crate::codec::spec_u16_le(RTM_NEWLINK)[0]);
    assert(hdr[5] == crate::codec::spec_u16_le(RTM_NEWLINK)[1]);
    assert(b[4] == hdr[4] && b[5] == hdr[5]);
    assert(crate::reply::spec_msg_type(b) == RTM_NEWLINK);
    lemma_u32_le_round_trip(flags);
    assert(ifinfo[8] == spec_u32_le(flags)[0]);
    assert(ifinfo[9] == spec_u32_le(flags)[1]);
    assert(ifinfo[10] == spec_u32_le(flags)[2]);
    assert(ifinfo[11] == spec_u32_le(flags)[3]);
    assert(payload[8] == ifinfo[8] && payload[9] == ifinfo[9] && payload[10] == ifinfo[10]
        && payload[11] == ifinfo[11]);
    assert(b[24] == payload[8] && b[25] == payload[9] && b[26] == payload[10] && b[27]
        == payload[11]);
    assert(crate::codec::spec_u32_from_le(b[24], b[25], b[26], b[27]) == flags);
    assert(b.subrange(32, mlen) =~= spec_attrs_encode(ams));
    lemma_attrs_round_trip(ams);
}

} // verus!
