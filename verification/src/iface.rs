//! The interface handle and its operations.
//!
//! A [`CanInterface`] is identity only: the kernel's interface index.  It
//! owns no socket and caches no state, because any other process may
//! rename, reconfigure or remove the interface between two calls.  Each
//! operation therefore turns into one request frame (built here, byte for
//! byte) that the caller sends over a route-netlink socket, and one reply
//! buffer that the caller hands back to this library for interpretation.

use vstd::prelude::*;

use crate::codec::{spec_attr_encode, spec_u32_le, Attribute};
use crate::err::NlError;
use crate::link::{
    encode_request, IflaCan, spec_attrs_encode, spec_frame, spec_ifinfomsg, LinkMessage, AF_UNSPEC,
    ARPHRD_NETROM, EXT_FILTER_VF, IFF_UP, IFLA_EXT_MASK, IFLA_IFNAME, IFLA_INFO_DATA, IFLA_INFO_KIND,
    IFLA_LINKINFO, IFLA_MTU, IFNAMSIZ, NLM_F_ACK, NLM_F_CREATE, NLM_F_EXCL, NLM_F_REQUEST,
    RTM_DELLINK, RTM_GETLINK, RTM_NEWLINK,
};
use crate::timing::{can_bittiming, spec_timing_encode};
use vstd::string::StrSliceExecFns;
use vstd::string::StringSliceAdditionalSpecFns;

verus! {

/// The two MTU values a CAN link can legally carry: the classic frame
/// size and the CAN-FD frame size.  A closed allow-list: any other number
/// found on the wire decodes to nothing rather than to a raw value.
#[derive(Debug, Clone, Copy, PartialEq, Eq, Structural)]
pub enum Mtu {
    Standard,
    Fd,
}

impl Mtu {
    /// The numeric encoding of this MTU.
    pub open spec fn spec_value(self) -> u32 {
        match self {
            Mtu::Standard => 16,
            Mtu::Fd => 72,
        }
    }

    /// The numeric encoding of this MTU.
    pub fn value(self) -> (r: u32)
        ensures
            r == self.spec_value(),
    {
        match self {
            Mtu::Standard => 16,
            Mtu::Fd => 72,
        }
    }

    /// The MTU a raw 32-bit value stands for, if any.
    pub open spec fn spec_from_raw(v: u32) -> Option<Mtu> {
        if v == 16 {
            Some(Mtu::Standard)
        } else if v == 72 {
            Some(Mtu::Fd)
        } else {
            None
        }
    }

    /// Decode a raw 32-bit value; everything outside the allow-list is
    /// `None`.
    pub fn from_raw(v: u32) -> (r: Option<Mtu>)
        ensures
            r == Mtu::spec_from_raw(v),
    {
        if v == 16 {
            Some(Mtu::Standard)
        } else if v == 72 {
            Some(Mtu::Fd)
        } else {
            None
        }
    }
}

/// Encoding an MTU and reading it back yields the same MTU, for every
/// variant of the allow-list.
pub proof fn lemma_mtu_round_trip(m: Mtu)
    ensures
        Mtu::spec_from_raw(m.spec_value()) == Some(m),
{
}

/// Any raw value other than the two listed encodings decodes to `None`:
/// the allow-list never passes a number through.
pub proof fn lemma_mtu_allow_list(v: u32)
    requires
        v != 16,
        v != 72,
    ensures
        Mtu::spec_from_raw(v) is None,
{
}

/// The mathematical content of a [`Details`] value.
pub struct DetailsModel {
    pub name: Option<Seq<char>>,
    pub index: u32,
    pub is_up: bool,
    pub mtu: Option<Mtu>,
}

/// A fresh snapshot of an interface, produced by parsing one query reply;
/// never cached, never updated in place.
#[derive(Debug)]
pub struct Details {
    /// The interface's name, when the reply carried one that decoded as
    /// valid text; left unset otherwise.
    pub name: Option<String>,
    /// The index of the handle the query was made through.
    pub index: u32,
    /// Whether the administratively-up flag was set in the reply.
    pub is_up: bool,
    /// The reply's MTU attribute matched against the allow-list; unset
    /// when absent, of the wrong width, or an unrecognized value.
    pub mtu: Option<Mtu>,
}

impl View for Details {
    type V = DetailsModel;

    open spec fn view(&self) -> DetailsModel {
        DetailsModel {
            name: match self.name {
                Some(s) => Some(s@),
                None => None,
            },
            index: self.index,
            is_up: self.is_up,
            mtu: self.mtu,
        }
    }
}

/// A handle to a CAN network interface: the kernel's index for it, and
/// nothing else.
#[derive(Debug, Clone, Copy, PartialEq, Eq, Structural)]
pub struct CanInterface {
    pub if_index: u32,
}

/// The bit-timing record a set-bitrate operation sends: the bitrate and
/// sample point as given, every other field zero.
pub open spec fn spec_bitrate_timing(bitrate: u32, sample_point: Option<u16>) -> can_bittiming {
    can_bittiming {
        bitrate,
        sample_point: match sample_point {
            Some(p) => p as u32,
            None => 0,
        },
        tq: 0,
        prop_seg: 0,
        phase_seg1: 0,
        phase_seg2: 0,
        sjw: 0,
        brp: 0,
    }
}

/// Relies on `nix::net::if_::if_nametoindex`: resolves an interface name
/// against the kernel's current table, returning the errno on failure; its
/// source returns an error rather than ever handing back an index of zero.
/// What it returns depends on the machine's state at the moment of the
/// call, so no more is assumed of it.
#[verifier::external_body]
fn name_to_index(name: &str) -> (r: Result<u32, i32>)
    ensures
        r matches Ok(i) ==> i != 0,
{
    match nix::net::if_::if_nametoindex(name) {
        Ok(i) => Ok(i),
        Err(e) => Err(e as i32),
    }
}

impl CanInterface {
    /// The handle an open-by-name lookup yields, for every outcome of the
    /// lookup: a handle bound to the index found, or the lookup's errno
    /// as the failure.
    pub fn open_result(lookup: Result<u32, i32>) -> (r: Result<CanInterface, NlError>)
        ensures
            lookup matches Ok(i) ==> r == Ok::<CanInterface, NlError>(CanInterface { if_index: i }),
            lookup matches Err(e) ==> r == Err::<CanInterface, NlError>(NlError::Lookup(e)),
    {
        match lookup {
            Ok(i) => Ok(CanInterface { if_index: i }),
            Err(e) => Err(NlError::Lookup(e)),
        }
    }

    /// The handle a create operation's follow-up lookup yields, for every
    /// outcome of the lookup: a handle bound to the index the new name
    /// resolves to, or the create-time race as the failure.
    pub fn created_result(lookup: Result<u32, i32>) -> (r: Result<CanInterface, NlError>)
        ensures
            lookup matches Ok(i) ==> r == Ok::<CanInterface, NlError>(CanInterface { if_index: i }),
            lookup is Err ==> r == Err::<CanInterface, NlError>(NlError::InterfaceGone),
    {
        match lookup {
            Ok(i) => Ok(CanInterface { if_index: i }),
            Err(_) => Err(NlError::InterfaceGone),
        }
    }

    /// Open a CAN interface by name: resolve the name against the
    /// kernel's table and bind a handle to the index found.
    pub fn open(ifname: &str) -> (r: Result<CanInterface, NlError>)
        ensures
            r matches Ok(h) ==> h.if_index != 0,
            r matches Err(e) ==> e matches NlError::Lookup(_),
    {
        CanInterface::open_result(name_to_index(ifname))
    }

    /// Bind a handle to an index.  No check is made that an interface
    /// with this index exists; none could stay true anyway.
    pub fn open_iface(if_index: u32) -> (r: CanInterface)
        ensures
            r.if_index == if_index,
    {
        CanInterface { if_index }
    }

    /// The interface index this handle is bound to.
    pub fn index(&self) -> (r: u32)
        ensures
            r == self.if_index,
    {
        self.if_index
    }

    /// The request frame that brings this interface up: the
    /// administratively-up bit set in both the flag word and the change
    /// mask.
    pub fn bring_up_request(&self, seq: u32, pid: u32) -> (r: Vec<u8>)
        ensures
            r@ == spec_frame(
                RTM_NEWLINK,
                (NLM_F_REQUEST + NLM_F_ACK) as u16,
                seq,
                pid,
                spec_ifinfomsg(AF_UNSPEC, ARPHRD_NETROM, self.if_index, IFF_UP, IFF_UP),
            ),
    {
        let msg = LinkMessage::new(AF_UNSPEC, ARPHRD_NETROM, self.if_index, IFF_UP, IFF_UP);
        let r = encode_request(RTM_NEWLINK, NLM_F_REQUEST + NLM_F_ACK, seq, pid, &msg);
        proof {
            assert(msg.spec_payload() =~= spec_ifinfomsg(
                AF_UNSPEC,
                ARPHRD_NETROM,
                self.if_index,
                IFF_UP,
                IFF_UP,
            ));
        }
        r
    }

    /// The request frame that brings this interface down: the change mask
    /// bit set, the flag bit clear.
    pub fn bring_down_request(&self, seq: u32, pid: u32) -> (r: Vec<u8>)
        ensures
            r@ == spec_frame(
                RTM_NEWLINK,
                (NLM_F_REQUEST + NLM_F_ACK) as u16,
                seq,
                pid,
                spec_ifinfomsg(AF_UNSPEC, ARPHRD_NETROM, self.if_index, 0, IFF_UP),
            ),
    {
        let msg = LinkMessage::new(AF_UNSPEC, ARPHRD_NETROM, self.if_index, 0, IFF_UP);
        let r = encode_request(RTM_NEWLINK, NLM_F_REQUEST + NLM_F_ACK, seq, pid, &msg);
        proof {
            assert(msg.spec_payload() =~= spec_ifinfomsg(
                AF_UNSPEC,
                ARPHRD_NETROM,
                self.if_index,
                0,
                IFF_UP,
            ));
        }
        r
    }

    /// The request frame that deletes this interface.
    pub fn delete_request(&self, seq: u32, pid: u32) -> (r: Vec<u8>)
        ensures
            r@ == spec_frame(
                RTM_DELLINK,
                (NLM_F_REQUEST + NLM_F_ACK) as u16,
                seq,
                pid,
                spec_ifinfomsg(AF_UNSPEC, ARPHRD_NETROM, self.if_index, 0, 0),
            ),
    {
        let msg = LinkMessage::new(AF_UNSPEC, ARPHRD_NETROM, self.if_index, 0, 0);
        let r = encode_request(RTM_DELLINK, NLM_F_REQUEST + NLM_F_ACK, seq, pid, &msg);
        proof {
            assert(msg.spec_payload() =~= spec_ifinfomsg(
                AF_UNSPEC,
                ARPHRD_NETROM,
                self.if_index,
                0,
                0,
            ));
        }
        r
    }

    /// After a delete exchange, keep or consume the handle: on success the
    /// handle is gone, on failure it is handed back beside the error so
    /// the caller can retry without having lost the reference.
    pub fn delete_result(self, outcome: Result<(), NlError>) -> (r: Result<
        (),
        (CanInterface, NlError),
    >)
        ensures
            outcome is Ok ==> r is Ok,
            outcome matches Err(e) ==> r matches Err(p) && p.0 == self && p.1 == e,
    {
        match outcome {
            Ok(()) => Ok(()),
            Err(e) => Err((self, e)),
        }
    }

    /// The query frame for this interface's details, asking the kernel to
    /// leave out per-VF detail; a query carries no acknowledgment flag.
    pub fn details_request(&self, seq: u32, pid: u32) -> (r: Vec<u8>)
        ensures
            r@ == spec_frame(
                RTM_GETLINK,
                NLM_F_REQUEST,
                seq,
                pid,
                spec_ifinfomsg(AF_UNSPEC, ARPHRD_NETROM, self.if_index, 0, 0) + spec_attr_encode(
                    IFLA_EXT_MASK,
                    spec_u32_le(EXT_FILTER_VF),
                ),
            ),
    {
        let mut msg = LinkMessage::new(AF_UNSPEC, ARPHRD_NETROM, self.if_index, 0, 0);
        let mut mask: Vec<u8> = Vec::new();
        crate::codec::push_u32_le(&mut mask, EXT_FILTER_VF);
        let ext = Attribute::encode(IFLA_EXT_MASK, mask);
        proof {
            crate::codec::lemma_attr_encode_len(IFLA_EXT_MASK, ext.payload@);
        }
        msg.push_attr(ext);
        let r = encode_request(RTM_GETLINK, NLM_F_REQUEST, seq, pid, &msg);
        proof {
            assert(crate::codec::attrs_models(msg.attrs@) =~= seq![
                (IFLA_EXT_MASK, spec_u32_le(EXT_FILTER_VF)),
            ]);
            crate::link::lemma_attrs_encode_single(
                IFLA_EXT_MASK,
                spec_u32_le(EXT_FILTER_VF),
                crate::codec::attrs_models(msg.attrs@),
            );
            assert(msg.spec_payload() =~= spec_ifinfomsg(
                AF_UNSPEC,
                ARPHRD_NETROM,
                self.if_index,
                0,
                0,
            ) + spec_attr_encode(IFLA_EXT_MASK, spec_u32_le(EXT_FILTER_VF)));
        }
        r
    }

    /// The request frame that creates an interface of the given kind,
    /// e.g. `"can"` or `"vcan"`: the name attribute, then a link-info
    /// attribute nesting the kind, all under create-exclusive flags so an
    /// existing interface of the same name is never silently overwritten.
    ///
    /// The name must fit the platform's 16-byte limit and the kind must be
    /// of reasonable length; violating either is reported as
    /// [`NlError::InvalidParameter`] rather than left to a debug check.
    pub fn create_request(name: &str, index: Option<u32>, kind: &str, seq: u32, pid: u32) -> (r:
        Result<Vec<u8>, NlError>)
        ensures
            r is Ok <==> name.spec_bytes().len() <= IFNAMSIZ && kind.spec_bytes().len() <= 512,
            r matches Err(e) ==> e == NlError::InvalidParameter,
            r matches Ok(v) ==> v@ == spec_frame(
                RTM_NEWLINK,
                (NLM_F_REQUEST + NLM_F_ACK + NLM_F_CREATE + NLM_F_EXCL) as u16,
                seq,
                pid,
                spec_ifinfomsg(
                    AF_UNSPEC,
                    ARPHRD_NETROM,
                    match index {
                        Some(i) => i,
                        None => 0,
                    },
                    0,
                    0,
                ) + spec_attr_encode(IFLA_IFNAME, name.spec_bytes().push(0u8)) + spec_attr_encode(
                    IFLA_LINKINFO,
                    spec_attr_encode(IFLA_INFO_KIND, kind.spec_bytes().push(0u8)),
                ),
            ),
    {
        let mut name_b = name.as_bytes_vec();
        if name_b.len() > IFNAMSIZ {
            return Err(NlError::InvalidParameter);
        }
        let mut kind_b = kind.as_bytes_vec();
        if kind_b.len() > 512 {
            return Err(NlError::InvalidParameter);
        }
        name_b.push(0u8);
        kind_b.push(0u8);
        let name_attr = Attribute::encode(IFLA_IFNAME, name_b);
        let kind_attr = Attribute::encode(IFLA_INFO_KIND, kind_b);
        proof {
            crate::codec::lemma_attr_encode_len(IFLA_INFO_KIND, kind_attr.payload@);
        }
        let mut linkinfo = Attribute::encode(IFLA_LINKINFO, Vec::new());
        linkinfo.add_nested(&kind_attr);
        proof {
            assert(linkinfo.payload@ =~= spec_attr_encode(
                IFLA_INFO_KIND,
                kind.spec_bytes().push(0u8),
            ));
            crate::codec::lemma_attr_encode_len(IFLA_IFNAME, name_attr.payload@);
            crate::codec::lemma_attr_encode_len(IFLA_LINKINFO, linkinfo.payload@);
        }
        let idx: u32 = match index {
            Some(i) => i,
            None => 0,
        };
        let mut msg = LinkMessage::new(AF_UNSPEC, ARPHRD_NETROM, idx, 0, 0);
        let ghost m1 = name_attr@;
        let ghost m2 = linkinfo@;
        msg.push_attr(name_attr);
        proof {
            let ms1 = crate::codec::attrs_models(msg.attrs@);
            assert(ms1 =~= seq![m1]);
            crate::link::lemma_attrs_encode_single(m1.0, m1.1, ms1);
        }
        msg.push_attr(linkinfo);
        let r = encode_request(
            RTM_NEWLINK,
            NLM_F_REQUEST + NLM_F_ACK + NLM_F_CREATE + NLM_F_EXCL,
            seq,
            pid,
            &msg,
        );
        proof {
            let ms = crate::codec::attrs_models(msg.attrs@);
            assert(ms =~= seq![m1, m2]);
            assert(ms.drop_first() =~= seq![m2]);
            crate::link::lemma_attrs_encode_single(m2.0, m2.1, ms.drop_first());
            assert(spec_attrs_encode(ms) =~= spec_attr_encode(m1.0, m1.1) + spec_attr_encode(
                m2.0,
                m2.1,
            ));
            assert(msg.spec_payload() =~= spec_ifinfomsg(AF_UNSPEC, ARPHRD_NETROM, idx, 0, 0)
                + spec_attr_encode(IFLA_IFNAME, name.spec_bytes().push(0u8)) + spec_attr_encode(
                IFLA_LINKINFO,
                spec_attr_encode(IFLA_INFO_KIND, kind.spec_bytes().push(0u8)),
            ));
        }
        Ok(r)
    }

    /// The request frame that creates a virtual CAN interface, useful for
    /// testing: [`CanInterface::create_request`] with kind `"vcan"`.
    pub fn create_vcan_request(name: &str, index: Option<u32>, seq: u32, pid: u32) -> (r: Result<
        Vec<u8>,
        NlError,
    >)
        ensures
            r is Ok <==> name.spec_bytes().len() <= IFNAMSIZ,
            r matches Err(e) ==> e == NlError::InvalidParameter,
            r matches Ok(v) ==> v@ == spec_frame(
                RTM_NEWLINK,
                (NLM_F_REQUEST + NLM_F_ACK + NLM_F_CREATE + NLM_F_EXCL) as u16,
                seq,
                pid,
                spec_ifinfomsg(
                    AF_UNSPEC,
                    ARPHRD_NETROM,
                    match index {
                        Some(i) => i,
                        None => 0,
                    },
                    0,
                    0,
                ) + spec_attr_encode(IFLA_IFNAME, name.spec_bytes().push(0u8)) + spec_attr_encode(
                    IFLA_LINKINFO,
                    spec_attr_encode(IFLA_INFO_KIND, "vcan".spec_bytes().push(0u8)),
                ),
            ),
    {
        proof {
            reveal_strlit("vcan");
            assert("vcan"@.len() == 4);
            assert(vstd::utf8::is_ascii_chars("vcan"@)) by {
                assert("vcan"@[0] == 'v');
                assert("vcan"@[1] == 'c');
                assert("vcan"@[2] == 'a');
                assert("vcan"@[3] == 'n');
            }
            vstd::utf8::is_ascii_chars_encode_utf8("vcan"@);
            assert("vcan".spec_bytes().len() == 4);
        }
        CanInterface::create_request(name, index, "vcan", seq, pid)
    }

    /// After a successful create exchange, the handle to hand back: the
    /// caller's index when one was given (the kernel's acknowledgment
    /// carries none), else the index the name resolves to now — which can
    /// already have vanished again, the create-time race.
    pub fn create_resolve(name: &str, index: Option<u32>) -> (r: Result<CanInterface, NlError>)
        ensures
            index matches Some(i) ==> r matches Ok(h) && h.if_index == i,
            index is None ==> match r {
                Ok(h) => h.if_index != 0,
                Err(e) => e == NlError::InterfaceGone,
            },
    {
        match index {
            Some(i) => Ok(CanInterface { if_index: i }),
            None => CanInterface::created_result(name_to_index(name)),
        }
    }

    /// The request frame that sets this interface's bit timing: a
    /// link-info attribute nesting the kind `"can"` and a data attribute,
    /// which in turn nests the 32-byte bit-timing record with every field
    /// other than the bitrate and sample point zero.
    ///
    /// The bitrate must lie in `1..=1_000_000` and the sample point, when
    /// given, below `1000` (it is in tenths of a percent); out-of-range
    /// values are reported as [`NlError::InvalidParameter`] rather than
    /// left to a debug check.
    pub fn set_bitrate_request(
        &self,
        bitrate: u32,
        sample_point: Option<u16>,
        seq: u32,
        pid: u32,
    ) -> (r: Result<Vec<u8>, NlError>)
        ensures
            r is Ok <==> (1 <= bitrate <= 1000000 && (sample_point matches Some(p) ==> p
                < 1000)),
            r matches Err(e) ==> e == NlError::InvalidParameter,
            r matches Ok(v) ==> v@ == spec_frame(
                RTM_NEWLINK,
                (NLM_F_REQUEST + NLM_F_ACK) as u16,
                seq,
                pid,
                spec_ifinfomsg(AF_UNSPEC, ARPHRD_NETROM, self.if_index, 0, 0) + spec_attr_encode(
                    IFLA_LINKINFO,
                    spec_attr_encode(IFLA_INFO_KIND, "can".spec_bytes().push(0u8))
                        + spec_attr_encode(
                        IFLA_INFO_DATA,
                        spec_attr_encode(
                            IflaCan::BitTiming.spec_value(),
                            spec_timing_encode(spec_bitrate_timing(bitrate, sample_point)),
                        ),
                    ),
                ),
            ),
    {
        if bitrate < 1 || bitrate > 1000000 {
            return Err(NlError::InvalidParameter);
        }
        let sp: u32 = match sample_point {
            Some(p) => {
                if p >= 1000 {
                    return Err(NlError::InvalidParameter);
                }
                p as u32
            },
            None => 0,
        };
        let timing = can_bittiming {
            bitrate,
            sample_point: sp,
            tq: 0,
            prop_seg: 0,
            phase_seg1: 0,
            phase_seg2: 0,
            sjw: 0,
            brp: 0,
        };
        let record = timing.encode();
        let bt_attr = Attribute::encode(IflaCan::BitTiming.value(), record);
        proof {
            crate::codec::lemma_attr_encode_len(IflaCan::BitTiming.spec_value(), bt_attr.payload@);
        }
        let mut data = Attribute::encode(IFLA_INFO_DATA, Vec::new());
        data.add_nested(&bt_attr);
        proof {
            assert(data.payload@ =~= spec_attr_encode(
                IflaCan::BitTiming.spec_value(),
                spec_timing_encode(spec_bitrate_timing(bitrate, sample_point)),
            ));
            crate::codec::lemma_attr_encode_len(IFLA_INFO_DATA, data.payload@);
        }
        proof {
            reveal_strlit("can");
            assert("can"@.len() == 3);
            assert(vstd::utf8::is_ascii_chars("can"@)) by {
                assert("can"@[0] == 'c');
                assert("can"@[1] == 'a');
                assert("can"@[2] == 'n');
            }
            vstd::utf8::is_ascii_chars_encode_utf8("can"@);
            assert("can".spec_bytes().len() == 3);
        }
        let mut kind_b = "can".as_bytes_vec();
        kind_b.push(0u8);
        let kind_attr = Attribute::encode(IFLA_INFO_KIND, kind_b);
        proof {
            crate::codec::lemma_attr_encode_len(IFLA_INFO_KIND, kind_attr.payload@);
        }
        let mut linkinfo = Attribute::encode(IFLA_LINKINFO, Vec::new());
        linkinfo.add_nested(&kind_attr);
        linkinfo.add_nested(&data);
        proof {
            assert(linkinfo.payload@ =~= spec_attr_encode(
                IFLA_INFO_KIND,
                "can".spec_bytes().push(0u8),
            ) + spec_attr_encode(
                IFLA_INFO_DATA,
                spec_attr_encode(
                    IflaCan::BitTiming.spec_value(),
                    spec_timing_encode(spec_bitrate_timing(bitrate, sample_point)),
                ),
            ));
            crate::codec::lemma_attr_encode_len(IFLA_LINKINFO, linkinfo.payload@);
        }
        let mut msg = LinkMessage::new(AF_UNSPEC, ARPHRD_NETROM, self.if_index, 0, 0);
        let ghost m1 = linkinfo@;
        msg.push_attr(linkinfo);
        let r = encode_request(RTM_NEWLINK, NLM_F_REQUEST + NLM_F_ACK, seq, pid, &msg);
        proof {
            let ms = crate::codec::attrs_models(msg.attrs@);
            assert(ms =~= seq![m1]);
            crate::link::lemma_attrs_encode_single(m1.0, m1.1, ms);
            assert(msg.spec_payload() =~= spec_ifinfomsg(
                AF_UNSPEC,
                ARPHRD_NETROM,
                self.if_index,
                0,
                0,
            ) + spec_attr_encode(IFLA_LINKINFO, m1.1));
        }
        Ok(r)
    }

    /// The request frame that sets this interface's MTU to one of the two
    /// allowed values, as a four-byte attribute.
    pub fn set_mtu_request(&self, mtu: Mtu, seq: u32, pid: u32) -> (r: Vec<u8>)
        ensures
            r@ == spec_frame(
                RTM_NEWLINK,
                (NLM_F_REQUEST + NLM_F_ACK) as u16,
                seq,
                pid,
                spec_ifinfomsg(AF_UNSPEC, ARPHRD_NETROM, self.if_index, 0, 0) + spec_attr_encode(
                    IFLA_MTU,
                    spec_u32_le(mtu.spec_value()),
                ),
            ),
    {
        let mut msg = LinkMessage::new(AF_UNSPEC, ARPHRD_NETROM, self.if_index, 0, 0);
        let mut val: Vec<u8> = Vec::new();
        crate::codec::push_u32_le(&mut val, mtu.value());
        let attr = Attribute::encode(IFLA_MTU, val);
        proof {
            crate::codec::lemma_attr_encode_len(IFLA_MTU, attr.payload@);
        }
        msg.push_attr(attr);
        let r = encode_request(RTM_NEWLINK, NLM_F_REQUEST + NLM_F_ACK, seq, pid, &msg);
        proof {
            assert(crate::codec::attrs_models(msg.attrs@) =~= seq![
                (IFLA_MTU, spec_u32_le(mtu.spec_value())),
            ]);
            crate::link::lemma_attrs_encode_single(
                IFLA_MTU,
                spec_u32_le(mtu.spec_value()),
                crate::codec::attrs_models(msg.attrs@),
            );
            assert(msg.spec_payload() =~= spec_ifinfomsg(
                AF_UNSPEC,
                ARPHRD_NETROM,
                self.if_index,
                0,
                0,
            ) + spec_attr_encode(IFLA_MTU, spec_u32_le(mtu.spec_value())));
        }
        r
    }
}

} // verus!
