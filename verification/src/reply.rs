//! Reply interpretation.
//!
//! Every request is answered by exactly one reply frame (or by nothing,
//! when the kernel is not listening): an error record whose code zero
//! means acknowledged, an error record with a real code, or — for a query
//! — an interface-info payload to parse.  These functions classify a
//! reply buffer and, for queries, parse it into a [`Details`] snapshot.

use vstd::prelude::*;
use vstd::utf8::{decode_utf8, valid_utf8};

use crate::codec::{
    attrs_models, decode_attrs, read_u16_le, read_u32_le, spec_parse_attrs, spec_u16_from_le,
    spec_u32_from_le,
};
use crate::err::NlError;
use crate::iface::{Details, DetailsModel, Mtu};
use crate::link::{IFLA_IFNAME, IFLA_MTU, NLMSG_ERROR};

verus! {

/// The total-length field of a framed message.
pub open spec fn spec_msg_len(b: Seq<u8>) -> u32 {
    spec_u32_from_le(b[0], b[1], b[2], b[3])
}

/// The message-type field of a framed message.
pub open spec fn spec_msg_type(b: Seq<u8>) -> u16 {
    spec_u16_from_le(b[4], b[5])
}

/// The positive errno held in a kernel error record, which carries the
/// code negated in two's complement.
pub open spec fn spec_neg32(w: u32) -> u32 {
    if w == 0 {
        0
    } else {
        (0x100000000 - w) as u32
    }
}

fn neg32(w: u32) -> (r: u32)
    ensures
        r == spec_neg32(w),
{
    if w == 0 {
        0
    } else {
        (0xFFFFFFFFu32 - w) + 1
    }
}

/// What the reply to a mutating request means: acknowledged, an explicit
/// kernel error, no reply, or a reply of an unexpected kind.
pub open spec fn spec_interpret_ack(reply: Option<Seq<u8>>) -> Result<(), NlError> {
    match reply {
        None => Err(NlError::NoAck),
        Some(b) => {
            if b.len() < 16 {
                Err(NlError::Malformed)
            } else {
                let mlen = spec_msg_len(b) as int;
                if mlen < 16 || mlen > b.len() {
                    Err(NlError::Malformed)
                } else if spec_msg_type(b) == NLMSG_ERROR {
                    if mlen < 20 {
                        Err(NlError::Malformed)
                    } else {
                        let code = spec_u32_from_le(b[16], b[17], b[18], b[19]);
                        if code == 0 {
                            Ok(())
                        } else {
                            Err(NlError::Kernel(spec_neg32(code)))
                        }
                    }
                } else {
                    Err(NlError::NoAck)
                }
            }
        },
    }
}

/// Classify the reply to a mutating request.  Success exactly when the
/// kernel acknowledged: an error record with code zero.  A real code is
/// surfaced as [`NlError::Kernel`]; no reply, or a reply that is no error
/// record at all, is [`NlError::NoAck`]; a buffer too short for its own
/// framing is [`NlError::Malformed`].
pub fn interpret_ack(reply: Option<&[u8]>) -> (r: Result<(), NlError>)
    ensures
        r == spec_interpret_ack(
            match reply {
                Some(b) => Some(b@),
                None => None::<Seq<u8>>,
            },
        ),
{
    let b = match reply {
        None => {
            return Err(NlError::NoAck);
        },
        Some(b) => b,
    };
    if b.len() < 16 {
        return Err(NlError::Malformed);
    }
    let mlen32 = read_u32_le(b, 0);
    if mlen32 < 16 {
        return Err(NlError::Malformed);
    }
    let mlen = mlen32 as usize;
    if mlen > b.len() {
        return Err(NlError::Malformed);
    }
    let mtype = read_u16_le(b, 4);
    if mtype == NLMSG_ERROR {
        if mlen < 20 {
            return Err(NlError::Malformed);
        }
        let code = read_u32_le(b, 16);
        if code == 0 {
            Ok(())
        } else {
            Err(NlError::Kernel(neg32(code)))
        }
    } else {
        Err(NlError::NoAck)
    }
}

/// The name a raw attribute payload decodes to: the bytes before a single
/// terminating NUL, read as text.  Anything else — empty, unterminated,
/// an interior NUL, or invalid text — decodes to nothing.
pub open spec fn spec_name_decode(p: Seq<u8>) -> Option<Seq<char>> {
    if p.len() >= 1 && p[p.len() - 1] == 0 && (forall|i: int|
        0 <= i < p.len() - 1 ==> p[i] != 0) && valid_utf8(p.take(p.len() - 1)) {
        Some(decode_utf8(p.take(p.len() - 1)))
    } else {
        None
    }
}

/// Walk a run of decoded attributes, keeping the last name that decodes
/// and the allow-list match of the last four-byte MTU attribute; every
/// attribute of any other type is ignored.
pub open spec fn spec_fold_details(
    ams: Seq<(u16, Seq<u8>)>,
    name: Option<Seq<char>>,
    mtu: Option<Mtu>,
) -> (Option<Seq<char>>, Option<Mtu>)
    decreases ams.len(),
{
    if ams.len() == 0 {
        (name, mtu)
    } else {
        let t = ams[0].0;
        let p = ams[0].1;
        let name2 = if t == IFLA_IFNAME {
            match spec_name_decode(p) {
                Some(s) => Some(s),
                None => name,
            }
        } else {
            name
        };
        let mtu2 = if t == IFLA_MTU && p.len() == 4 {
            Mtu::spec_from_raw(spec_u32_from_le(p[0], p[1], p[2], p[3]))
        } else {
            mtu
        };
        spec_fold_details(ams.drop_first(), name2, mtu2)
    }
}

/// The view of an optional owned name.
pub open spec fn spec_opt_name(n: Option<String>) -> Option<Seq<char>> {
    match n {
        Some(s) => Some(s@),
        None => None,
    }
}

/// What a query reply parses to.  An error record with a real code is the
/// kernel's failure; one with code zero carries nothing to parse, so the
/// snapshot keeps its defaults.  A payload reply must hold the 16-byte
/// interface-info record and a well-framed attribute run; the flag word's
/// lowest bit is the administratively-up state.
pub open spec fn spec_parse_details(idx: u32, reply: Option<Seq<u8>>) -> Result<
    DetailsModel,
    NlError,
> {
    match reply {
        None => Err(NlError::NoAck),
        Some(b) => {
            if b.len() < 16 {
                Err(NlError::Malformed)
            } else {
                let mlen = spec_msg_len(b) as int;
                if mlen < 16 || mlen > b.len() {
                    Err(NlError::Malformed)
                } else if spec_msg_type(b) == NLMSG_ERROR {
                    if mlen < 20 {
                        Err(NlError::Malformed)
                    } else {
                        let code = spec_u32_from_le(b[16], b[17], b[18], b[19]);
                        if code == 0 {
                            Ok(DetailsModel { name: None, index: idx, is_up: false, mtu: None })
                        } else {
                            Err(NlError::Kernel(spec_neg32(code)))
                        }
                    }
                } else {
                    if mlen < 32 {
                        Err(NlError::Malformed)
                    } else {
                        let flags = spec_u32_from_le(b[24], b[25], b[26], b[27]);
                        match spec_parse_attrs(b.subrange(32, mlen)) {
                            None => Err(NlError::Malformed),
                            Some(ams) => {
                                let folded = spec_fold_details(ams, None, None);
                                Ok(
                                    DetailsModel {
                                        name: folded.0,
                                        index: idx,
                                        is_up: flags % 2 == 1,
                                        mtu: folded.1,
                                    },
                                )
                            },
                        }
                    }
                }
            }
        },
    }
}

/// Relies on `String::from_utf8`: succeeds exactly when the bytes are
/// valid UTF-8, and then returns the text they encode, as given by the
/// reference encoding and decoding functions of `vstd::utf8`.
#[verifier::external_body]
fn string_from_utf8(v: Vec<u8>) -> (r: Option<String>)
    ensures
        r matches Some(s) ==> valid_utf8(v@) && s@ == decode_utf8(v@),
        r is None ==> !valid_utf8(v@),
{
    String::from_utf8(v).ok()
}

/// Parse the reply to a details query into a fresh snapshot for the
/// interface the query was made through.  The kernel's explicit error and
/// a missing reply surface as failures; a malformed frame or attribute
/// run surfaces as [`NlError::Malformed`]; but a name or MTU attribute
/// that merely fails its own decoding leaves that one field unset.
pub fn parse_details(if_index: u32, reply: Option<&[u8]>) -> (r: Result<Details, NlError>)
    ensures
        ({
            let s = spec_parse_details(
                if_index,
                match reply {
                    Some(b) => Some(b@),
                    None => None::<Seq<u8>>,
                },
            );
            match r {
                Ok(d) => s matches Ok(m) && d@ == m,
                Err(e) => s == Err::<DetailsModel, NlError>(e),
            }
        }),
{
    let b = match reply {
        None => {
            return Err(NlError::NoAck);
        },
        Some(b) => b,
    };
    if b.len() < 16 {
        return Err(NlError::Malformed);
    }
    let mlen32 = read_u32_le(b, 0);
    if mlen32 < 16 {
        return Err(NlError::Malformed);
    }
    let mlen = mlen32 as usize;
    if mlen > b.len() {
        return Err(NlError::Malformed);
    }
    let mtype = read_u16_le(b, 4);
    if mtype == NLMSG_ERROR {
        if mlen < 20 {
            return Err(NlError::Malformed);
        }
        let code = read_u32_le(b, 16);
        if code == 0 {
            return Ok(Details { name: None, index: if_index, is_up: false, mtu: None });
        }
        return Err(NlError::Kernel(neg32(code)));
    }
    if mlen < 32 {
        return Err(NlError::Malformed);
    }
    let flags = read_u32_le(b, 24);
    let is_up: bool = flags % 2 == 1;
    let mut region: Vec<u8> = Vec::new();
    let mut k: usize = 32;
    while k < mlen
        invariant
            32 <= k <= mlen,
            mlen <= b@.len(),
            region@ == b@.subrange(32, k as int),
        decreases mlen - k,
    {
        region.push(b[k]);
        k = k + 1;
        assert(region@ =~= b@.subrange(32, k as int));
    }
    assert(region@ =~= b@.subrange(32, mlen as int));
    let attrs = match decode_attrs(region.as_slice()) {
        Ok(v) => v,
        Err(e) => {
            return Err(e);
        },
    };
    let ghost ams = attrs_models(attrs@);
    let mut name: Option<String> = None;
    let mut mtu: Option<Mtu> = None;
    let mut a_i: usize = 0;
    proof {
        assert(ams.skip(0) =~= ams);
    }
    while a_i < attrs.len()
        invariant
            a_i <= attrs@.len(),
            ams == attrs_models(attrs@),
            forall|i: int| 0 <= i < attrs@.len() ==> (#[trigger] attrs@[i]).wf(),
            spec_fold_details(ams, None, None) == spec_fold_details(
                ams.skip(a_i as int),
                spec_opt_name(name),
                mtu,
            ),
        decreases attrs@.len() - a_i,
    {
        let ghost prev_name = spec_opt_name(name);
        let ghost prev_mtu = mtu;
        let a = &attrs[a_i];
        proof {
            assert(ams[a_i as int] == attrs@[a_i as int]@);
        }
        if a.type_code == IFLA_IFNAME {
            let pl = a.payload.len();
            if pl >= 1 && a.payload[pl - 1] == 0 {
                let mut clean: bool = true;
                let mut z: usize = 0;
                while z < pl - 1
                    invariant
                        z <= pl - 1,
                        pl == a.payload@.len(),
                        pl >= 1,
                        clean == (forall|i: int| 0 <= i < z ==> a.payload@[i] != 0),
                    decreases pl - 1 - z,
                {
                    if a.payload[z] == 0 {
                        clean = false;
                    }
                    z = z + 1;
                }
                if clean {
                    let mut body: Vec<u8> = Vec::new();
                    let mut w: usize = 0;
                    while w < pl - 1
                        invariant
                            w <= pl - 1,
                            pl == a.payload@.len(),
                            pl >= 1,
                            body@ == a.payload@.subrange(0, w as int),
                        decreases pl - 1 - w,
                    {
                        body.push(a.payload[w]);
                        w = w + 1;
                        assert(body@ =~= a.payload@.subrange(0, w as int));
                    }
                    assert(body@ =~= a.payload@.take(pl - 1));
                    match string_from_utf8(body) {
                        Some(s) => {
                            name = Some(s);
                            assert(spec_name_decode(a.payload@) == spec_opt_name(name));
                        },
                        None => {
                            assert(spec_name_decode(a.payload@) is None);
                        },
                    }
                } else {
                    assert(spec_name_decode(a.payload@) is None);
                }
            } else {
                assert(spec_name_decode(a.payload@) is None);
            }
        } else if a.type_code == IFLA_MTU {
            if a.payload.len() == 4 {
                let v = read_u32_le(a.payload.as_slice(), 0);
                mtu = Mtu::from_raw(v);
            }
        }
        proof {
            assert(ams.skip(a_i as int).drop_first() =~= ams.skip(a_i as int + 1));
            assert(ams.skip(a_i as int)[0] == ams[a_i as int]);
            assert(spec_fold_details(ams.skip(a_i as int), prev_name, prev_mtu)
                == spec_fold_details(ams.skip(a_i as int + 1), spec_opt_name(name), mtu));
        }
        a_i = a_i + 1;
    }
    proof {
        assert(ams.skip(ams.len() as int) =~= Seq::<(u16, Seq<u8>)>::empty());
    }
    Ok(Details { name, index: if_index, is_up, mtu })
}

} // verus!
