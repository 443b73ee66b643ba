//! Link message builder.
//!
//! A route-netlink request for a link operation is one frame: a 16-byte
//! netlink header (length, message type, flags, sequence, port id), a
//! 16-byte interface-info record (family, link-layer type, index, flag
//! word, flag-change mask), and a flat run of TLV attributes.

use vstd::prelude::*;

use crate::codec::{
    append_attr, attrs_models, push_u16_le, push_u32_le, spec_attr_encode, spec_u16_le,
    spec_u32_le, Attribute,
};

verus! {

pub const RTM_NEWLINK: u16 = 16;

pub const RTM_DELLINK: u16 = 17;

pub const RTM_GETLINK: u16 = 18;

/// Message type of the kernel's error / acknowledgment record.
pub const NLMSG_ERROR: u16 = 2;

pub const NLM_F_REQUEST: u16 = 1;

pub const NLM_F_ACK: u16 = 4;

pub const NLM_F_EXCL: u16 = 0x200;

pub const NLM_F_CREATE: u16 = 0x400;

/// Address family: unspecified.
pub const AF_UNSPEC: u8 = 0;

/// Link-layer type placeholder used for CAN link messages.
pub const ARPHRD_NETROM: u16 = 0;

/// The administratively-up bit of the interface flag word.
pub const IFF_UP: u32 = 1;

pub const IFLA_IFNAME: u16 = 3;

pub const IFLA_MTU: u16 = 4;

pub const IFLA_LINKINFO: u16 = 18;

pub const IFLA_EXT_MASK: u16 = 30;

pub const IFLA_INFO_KIND: u16 = 1;

pub const IFLA_INFO_DATA: u16 = 2;

/// Query filter bit asking the kernel to leave out per-VF detail.
pub const EXT_FILTER_VF: u32 = 1;

/// The platform's limit on an interface name, in bytes.
pub const IFNAMSIZ: usize = 16;

/// Byte length of the netlink header.
pub const NLMSG_HDRLEN: usize = 16;

/// Attribute type codes of the CAN-specific attribute namespace, nested
/// under the link-info data attribute.
#[derive(Debug, Clone, Copy, PartialEq, Eq, Structural)]
pub enum IflaCan {
    Unspec,
    BitTiming,
    BitTimingConst,
    Clock,
    State,
    CtrlMode,
    RestartMs,
    Restart,
    BerrCounter,
    DataBitTiming,
    DataBitTimingConst,
    Termination,
    TerminationConst,
    BitRateConst,
    DataBitRateConst,
    BitRateMax,
    Tdc,
    CtrlModeExt,
}

impl IflaCan {
    /// The wire value of this type code.
    pub open spec fn spec_value(self) -> u16 {
        match self {
            IflaCan::Unspec => 0,
            IflaCan::BitTiming => 1,
            IflaCan::BitTimingConst => 2,
            IflaCan::Clock => 3,
            IflaCan::State => 4,
            IflaCan::CtrlMode => 5,
            IflaCan::RestartMs => 6,
            IflaCan::Restart => 7,
            IflaCan::BerrCounter => 8,
            IflaCan::DataBitTiming => 9,
            IflaCan::DataBitTimingConst => 10,
            IflaCan::Termination => 11,
            IflaCan::TerminationConst => 12,
            IflaCan::BitRateConst => 13,
            IflaCan::DataBitRateConst => 14,
            IflaCan::BitRateMax => 15,
            IflaCan::Tdc => 16,
            IflaCan::CtrlModeExt => 17,
        }
    }

    /// The wire value of this type code.
    pub fn value(self) -> (r: u16)
        ensures
            r == self.spec_value(),
    {
        match self {
            IflaCan::Unspec => 0,
            IflaCan::BitTiming => 1,
            IflaCan::BitTimingConst => 2,
            IflaCan::Clock => 3,
            IflaCan::State => 4,
            IflaCan::CtrlMode => 5,
            IflaCan::RestartMs => 6,
            IflaCan::Restart => 7,
            IflaCan::BerrCounter => 8,
            IflaCan::DataBitTiming => 9,
            IflaCan::DataBitTimingConst => 10,
            IflaCan::Termination => 11,
            IflaCan::TerminationConst => 12,
            IflaCan::BitRateConst => 13,
            IflaCan::DataBitRateConst => 14,
            IflaCan::BitRateMax => 15,
            IflaCan::Tdc => 16,
            IflaCan::CtrlModeExt => 17,
        }
    }
}

/// The wire form of a run of attributes, one after the other.
pub open spec fn spec_attrs_encode(ms: Seq<(u16, Seq<u8>)>) -> Seq<u8>
    decreases ms.len(),
{
    if ms.len() == 0 {
        Seq::empty()
    } else {
        spec_attr_encode(ms[0].0, ms[0].1) + spec_attrs_encode(ms.drop_first())
    }
}

/// Encoding a run with one more attribute at its end appends that
/// attribute's wire form.
pub proof fn lemma_attrs_encode_push(ms: Seq<(u16, Seq<u8>)>, t: u16, p: Seq<u8>)
    ensures
        spec_attrs_encode(ms.push((t, p))) == spec_attrs_encode(ms) + spec_attr_encode(t, p),
    decreases ms.len(),
{
    if ms.len() == 0 {
        assert(ms.push((t, p)).drop_first() =~= ms);
        assert(spec_attrs_encode(ms.push((t, p))) =~= spec_attr_encode(t, p));
        assert(spec_attrs_encode(ms) + spec_attr_encode(t, p) =~= spec_attr_encode(t, p));
    } else {
        assert(ms.push((t, p)).drop_first() =~= ms.drop_first().push((t, p)));
        assert(ms.push((t, p))[0] == ms[0]);
        lemma_attrs_encode_push(ms.drop_first(), t, p);
        assert(spec_attrs_encode(ms.push((t, p))) =~= spec_attrs_encode(ms) + spec_attr_encode(
            t,
            p,
        ));
    }
}

/// The wire form of a run holding exactly one attribute is that
/// attribute's wire form.
pub proof fn lemma_attrs_encode_single(t: u16, p: Seq<u8>, ms: Seq<(u16, Seq<u8>)>)
    requires
        ms =~= seq![(t, p)],
    ensures
        spec_attrs_encode(ms) == spec_attr_encode(t, p),
{
    assert(ms[0] == (t, p));
    assert(ms.drop_first() =~= Seq::<(u16, Seq<u8>)>::empty());
    assert(spec_attrs_encode(ms.drop_first()) =~= Seq::<u8>::empty());
    assert(spec_attrs_encode(ms) =~= spec_attr_encode(t, p));
}

/// The 16-byte interface-info record.
pub open spec fn spec_ifinfomsg(
    family: u8,
    link_type: u16,
    index: u32,
    flags: u32,
    change: u32,
) -> Seq<u8> {
    seq![family, 0u8] + spec_u16_le(link_type) + spec_u32_le(index) + spec_u32_le(flags)
        + spec_u32_le(change)
}

/// The 16-byte netlink header.
pub open spec fn spec_nlmsghdr(len: u32, msg_type: u16, flags: u16, seq: u32, pid: u32) -> Seq<
    u8,
> {
    spec_u32_le(len) + spec_u16_le(msg_type) + spec_u16_le(flags) + spec_u32_le(seq) + spec_u32_le(
        pid,
    )
}

/// A whole request frame: header (its length field counting everything)
/// followed by the payload.
pub open spec fn spec_frame(msg_type: u16, flags: u16, seq: u32, pid: u32, payload: Seq<u8>) -> Seq<
    u8,
> {
    spec_nlmsghdr((NLMSG_HDRLEN + payload.len()) as u32, msg_type, flags, seq, pid) + payload
}

/// An interface-info message before framing: the fixed record's fields and
/// the attribute tree, in order.
pub struct LinkMessage {
    pub family: u8,
    pub link_type: u16,
    pub index: u32,
    pub flags: u32,
    pub change: u32,
    pub attrs: Vec<Attribute>,
}

impl LinkMessage {
    /// Every attribute fits its length field, and the whole message stays
    /// far below the sizes at which any length bookkeeping could wrap.
    pub open spec fn wf(&self) -> bool {
        &&& forall|i: int| 0 <= i < self.attrs@.len() ==> (#[trigger] self.attrs@[i]).wf()
        &&& spec_attrs_encode(attrs_models(self.attrs@)).len() <= 0xFFFF
    }

    /// The payload this message encodes to: interface-info record, then
    /// the attributes.
    pub open spec fn spec_payload(&self) -> Seq<u8> {
        spec_ifinfomsg(self.family, self.link_type, self.index, self.flags, self.change)
            + spec_attrs_encode(attrs_models(self.attrs@))
    }

    /// A message with the given fixed fields and no attributes yet.
    pub fn new(family: u8, link_type: u16, index: u32, flags: u32, change: u32) -> (r:
        LinkMessage)
        ensures
            r.family == family,
            r.link_type == link_type,
            r.index == index,
            r.flags == flags,
            r.change == change,
            r.attrs@ =~= Seq::<Attribute>::empty(),
            r.wf(),
    {
        let r = LinkMessage { family, link_type, index, flags, change, attrs: Vec::new() };
        proof {
            assert(attrs_models(r.attrs@) =~= Seq::<(u16, Seq<u8>)>::empty());
        }
        r
    }

    /// Append one attribute to the tree.
    pub fn push_attr(&mut self, a: Attribute)
        requires
            old(self).wf(),
            a.wf(),
            spec_attrs_encode(attrs_models(old(self).attrs@)).len() + spec_attr_encode(
                a.type_code,
                a.payload@,
            ).len() <= 0xFFFF,
        ensures
            final(self).family == old(self).family,
            final(self).link_type == old(self).link_type,
            final(self).index == old(self).index,
            final(self).flags == old(self).flags,
            final(self).change == old(self).change,
            final(self).attrs@ == old(self).attrs@.push(a),
            final(self).wf(),
            attrs_models(final(self).attrs@) == attrs_models(old(self).attrs@).push(a@),
    {
        let ghost old_models = attrs_models(self.attrs@);
        let ghost av = a@;
        self.attrs.push(a);
        proof {
            assert(attrs_models(self.attrs@) =~= old_models.push(av));
            lemma_attrs_encode_push(old_models, av.0, av.1);
        }
    }

    /// Encode the message's payload bytes.
    pub fn encode_payload(&self) -> (r: Vec<u8>)
        requires
            self.wf(),
        ensures
            r@ == self.spec_payload(),
    {
        let mut out: Vec<u8> = Vec::new();
        out.push(self.family);
        out.push(0u8);
        push_u16_le(&mut out, self.link_type);
        push_u32_le(&mut out, self.index);
        push_u32_le(&mut out, self.flags);
        push_u32_le(&mut out, self.change);
        assert(out@ =~= spec_ifinfomsg(
            self.family,
            self.link_type,
            self.index,
            self.flags,
            self.change,
        ));
        let ghost ifinfo = out@;
        let mut k: usize = 0;
        while k < self.attrs.len()
            invariant
                k <= self.attrs@.len(),
                self.wf(),
                ifinfo == spec_ifinfomsg(
                    self.family,
                    self.link_type,
                    self.index,
                    self.flags,
                    self.change,
                ),
                out@ == ifinfo + spec_attrs_encode(attrs_models(self.attrs@.take(k as int))),
            decreases self.attrs@.len() - k,
        {
            proof {
                assert(attrs_models(self.attrs@.take(k as int)).push(self.attrs@[k as int]@)
                    =~= attrs_models(self.attrs@.take(k as int + 1)));
                lemma_attrs_encode_push(
                    attrs_models(self.attrs@.take(k as int)),
                    self.attrs@[k as int]@.0,
                    self.attrs@[k as int]@.1,
                );
            }
            append_attr(&mut out, &self.attrs[k]);
            k = k + 1;
        }
        proof {
            assert(self.attrs@.take(self.attrs@.len() as int) =~= self.attrs@);
        }
        out
    }
}

/// Frame a message into the request bytes for one send: netlink header,
/// with its total-length field filled in, then the payload.
pub fn encode_request(msg_type: u16, flags: u16, seq: u32, pid: u32, msg: &LinkMessage) -> (r: Vec<
    u8,
>)
    requires
        msg.wf(),
    ensures
        r@ == spec_frame(msg_type, flags, seq, pid, msg.spec_payload()),
{
    let payload = msg.encode_payload();
    let mut out: Vec<u8> = Vec::new();
    push_u32_le(&mut out, (NLMSG_HDRLEN + payload.len()) as u32);
    push_u16_le(&mut out, msg_type);
    push_u16_le(&mut out, flags);
    push_u32_le(&mut out, seq);
    push_u32_le(&mut out, pid);
    let mut j: usize = 0;
    while j < payload.len()
        invariant
            j <= payload@.len(),
            out@ == spec_nlmsghdr(
                (NLMSG_HDRLEN + payload@.len()) as u32,
                msg_type,
                flags,
                seq,
                pid,
            ) + payload@.take(j as int),
        decreases payload@.len() - j,
    {
        out.push(payload[j]);
        j = j + 1;
        assert(payload@.take(j as int) =~= payload@.take(j as int - 1) + seq![payload@[j - 1]]);
        assert(out@ =~= spec_nlmsghdr((NLMSG_HDRLEN + payload@.len()) as u32, msg_type, flags, seq, pid)
            + payload@.take(j as int));
    }
    assert(payload@.take(payload@.len() as int) =~= payload@);
    out
}

} // verus!
