use can_netlink::codec::decode_attrs;
use can_netlink::err::NlError;
use can_netlink::iface::{CanInterface, Mtu};
use can_netlink::reply::{interpret_ack, parse_details};
use can_netlink::timing::can_bittiming;

fn le16(x: u16) -> [u8; 2] {
    [(x % 256) as u8, (x / 256) as u8]
}

fn le32(x: u32) -> [u8; 4] {
    [
        (x % 256) as u8,
        ((x / 256) % 256) as u8,
        ((x / 65536) % 256) as u8,
        (x / 16777216) as u8,
    ]
}

/// One TLV attribute in wire form.
fn wire_attr(t: u16, payload: &[u8]) -> Vec<u8> {
    let mut out: Vec<u8> = Vec::new();
    out.extend_from_slice(&le16((4 + payload.len()) as u16));
    out.extend_from_slice(&le16(t));
    out.extend_from_slice(payload);
    while out.len() % 4 != 0 {
        out.push(0);
    }
    out
}

/// A framed reply: netlink header, then the given payload.
fn wire_frame(msg_type: u16, payload: &[u8]) -> Vec<u8> {
    let mut out: Vec<u8> = Vec::new();
    out.extend_from_slice(&le32((16 + payload.len()) as u32));
    out.extend_from_slice(&le16(msg_type));
    out.extend_from_slice(&le16(0));
    out.extend_from_slice(&le32(0));
    out.extend_from_slice(&le32(0));
    out.extend_from_slice(payload);
    out
}

/// A query reply for an interface with the given flag word and attributes.
fn wire_details_reply(flags: u32, attrs: &[u8]) -> Vec<u8> {
    let mut payload: Vec<u8> = vec![0, 0, 0, 0];
    payload.extend_from_slice(&le32(9));
    payload.extend_from_slice(&le32(flags));
    payload.extend_from_slice(&le32(0));
    payload.extend_from_slice(attrs);
    wire_frame(16, &payload)
}

/// A kernel error record carrying the given (signed) code.
fn wire_error_record(code: i32) -> Vec<u8> {
    wire_frame(2, &le32(code as u32))
}

#[test]
fn mtu_allow_list() {
    assert_eq!(Mtu::from_raw(16), Some(Mtu::Standard));
    assert_eq!(Mtu::from_raw(72), Some(Mtu::Fd));
    assert_eq!(Mtu::from_raw(0), None);
    assert_eq!(Mtu::from_raw(1500), None);
    assert_eq!(Mtu::from_raw(71), None);
}

#[test]
fn mtu_roundtrip_values() {
    assert_eq!(Mtu::from_raw(Mtu::Standard.value()), Some(Mtu::Standard));
    assert_eq!(Mtu::from_raw(Mtu::Fd.value()), Some(Mtu::Fd));
}

#[test]
fn open_iface_and_index() {
    let iface = CanInterface::open_iface(9);
    assert_eq!(iface.index(), 9);
}

#[test]
fn open_missing_interface_fails() {
    let r = CanInterface::open("no_such_iface_0");
    assert!(matches!(r, Err(NlError::Lookup(_))));
}

#[test]
fn bring_up_request_bytes() {
    let iface = CanInterface::open_iface(5);
    let req = iface.bring_up_request(7, 0x1234);
    assert_eq!(req.len(), 32);
    assert_eq!(req[0..4], le32(32)); // total length
    assert_eq!(req[4..6], le16(16)); // new-link message
    assert_eq!(req[6..8], le16(1 + 4)); // request + ack
    assert_eq!(req[8..12], le32(7)); // sequence
    assert_eq!(req[12..16], le32(0x1234)); // port id
    assert_eq!(req[16], 0); // family unspecified
    assert_eq!(req[18..20], le16(0)); // link type placeholder
    assert_eq!(req[20..24], le32(5)); // index
    assert_eq!(req[24..28], le32(1)); // flags: up
    assert_eq!(req[28..32], le32(1)); // change mask: up
}

#[test]
fn bring_down_request_bytes() {
    let iface = CanInterface::open_iface(5);
    let req = iface.bring_down_request(0, 0);
    assert_eq!(req[24..28], le32(0)); // flags: up bit clear
    assert_eq!(req[28..32], le32(1)); // change mask: up
}

#[test]
fn delete_request_bytes() {
    let iface = CanInterface::open_iface(3);
    let req = iface.delete_request(0, 0);
    assert_eq!(req[4..6], le16(17)); // delete-link message
    assert_eq!(req[20..24], le32(3));
    assert_eq!(req[24..28], le32(0));
    assert_eq!(req[28..32], le32(0));
}

#[test]
fn delete_result_keeps_handle_on_failure() {
    let iface = CanInterface::open_iface(3);
    let kept = iface.delete_result(Err(NlError::Kernel(1)));
    match kept {
        Err((handle, e)) => {
            assert_eq!(handle.index(), 3);
            assert_eq!(e, NlError::Kernel(1));
        },
        Ok(()) => panic!("failure must hand the handle back"),
    }
    let gone = CanInterface::open_iface(3).delete_result(Ok(()));
    assert!(gone.is_ok());
}

#[test]
fn details_request_bytes() {
    let iface = CanInterface::open_iface(2);
    let req = iface.details_request(0, 0);
    assert_eq!(req[4..6], le16(18)); // get-link message
    assert_eq!(req[6..8], le16(1)); // request only, no ack flag
    let attrs = decode_attrs(&req[32..]).unwrap();
    assert_eq!(attrs.len(), 1);
    assert_eq!(attrs[0].type_code, 30); // extension filter mask
    assert_eq!(attrs[0].payload, le32(1).to_vec());
}

#[test]
fn set_mtu_request_bytes() {
    let iface = CanInterface::open_iface(2);
    let req = iface.set_mtu_request(Mtu::Fd, 0, 0);
    let attrs = decode_attrs(&req[32..]).unwrap();
    assert_eq!(attrs.len(), 1);
    assert_eq!(attrs[0].type_code, 4); // MTU attribute
    assert_eq!(attrs[0].payload, le32(72).to_vec());
    let req2 = iface.set_mtu_request(Mtu::Standard, 0, 0);
    let attrs2 = decode_attrs(&req2[32..]).unwrap();
    assert_eq!(attrs2[0].payload, le32(16).to_vec());
}

#[test]
fn set_bitrate_rejects_out_of_range() {
    let iface = CanInterface::open_iface(2);
    assert!(matches!(
        iface.set_bitrate_request(0, None, 0, 0),
        Err(NlError::InvalidParameter)
    ));
    assert!(matches!(
        iface.set_bitrate_request(1000001, None, 0, 0),
        Err(NlError::InvalidParameter)
    ));
    assert!(matches!(
        iface.set_bitrate_request(500000, Some(1000), 0, 0),
        Err(NlError::InvalidParameter)
    ));
    assert!(iface.set_bitrate_request(1000000, Some(999), 0, 0).is_ok());
}

#[test]
fn set_bitrate_nested_attrs() {
    let iface = CanInterface::open_iface(2);
    let req = iface.set_bitrate_request(500000, Some(750), 0, 0).unwrap();
    let attrs = decode_attrs(&req[32..]).unwrap();
    assert_eq!(attrs.len(), 1);
    assert_eq!(attrs[0].type_code, 18); // link info
    let nested = decode_attrs(&attrs[0].payload).unwrap();
    assert_eq!(nested.len(), 2);
    assert_eq!(nested[0].type_code, 1); // kind
    assert_eq!(nested[0].payload, vec![99, 97, 110, 0]); // "can", NUL terminated
    assert_eq!(nested[1].type_code, 2); // data
    let data = decode_attrs(&nested[1].payload).unwrap();
    assert_eq!(data.len(), 1);
    assert_eq!(data[0].type_code, 1); // bit timing
    let rec = can_bittiming::decode(&data[0].payload).unwrap();
    assert_eq!(rec.bitrate, 500000);
    assert_eq!(rec.sample_point, 750);
    assert_eq!(rec.tq, 0);
    assert_eq!(rec.prop_seg, 0);
    assert_eq!(rec.phase_seg1, 0);
    assert_eq!(rec.phase_seg2, 0);
    assert_eq!(rec.sjw, 0);
    assert_eq!(rec.brp, 0);
}

#[test]
fn create_request_rejects_long_name() {
    let r = CanInterface::create_request("seventeen_bytes__", None, "vcan", 0, 0);
    assert!(matches!(r, Err(NlError::InvalidParameter)));
    assert!(CanInterface::create_request("sixteen_bytes_ok", None, "vcan", 0, 0).is_ok());
}

#[test]
fn create_request_frame() {
    let req = CanInterface::create_request("can0", Some(4), "can", 9, 0).unwrap();
    assert_eq!(req[4..6], le16(16)); // new-link message
    assert_eq!(req[6..8], le16(1 + 4 + 0x400 + 0x200)); // request+ack+create+excl
    assert_eq!(req[20..24], le32(4)); // caller-given index
    let attrs = decode_attrs(&req[32..]).unwrap();
    assert_eq!(attrs.len(), 2);
    assert_eq!(attrs[0].type_code, 3); // interface name
    assert_eq!(attrs[0].payload, vec![99, 97, 110, 48, 0]);
    assert_eq!(attrs[1].type_code, 18); // link info
    let nested = decode_attrs(&attrs[1].payload).unwrap();
    assert_eq!(nested.len(), 1);
    assert_eq!(nested[0].type_code, 1); // kind
    assert_eq!(nested[0].payload, vec![99, 97, 110, 0]);
}

#[test]
fn create_vcan_request_kind() {
    let req = CanInterface::create_vcan_request("vcan0", None, 0, 0).unwrap();
    assert_eq!(req[20..24], le32(0)); // no index given
    let attrs = decode_attrs(&req[32..]).unwrap();
    let nested = decode_attrs(&attrs[1].payload).unwrap();
    assert_eq!(nested[0].payload, vec![118, 99, 97, 110, 0]); // "vcan", NUL terminated
}

#[test]
fn open_result_maps_both_outcomes() {
    let h = CanInterface::open_result(Ok(8)).unwrap();
    assert_eq!(h.index(), 8);
    let e = CanInterface::open_result(Err(19));
    assert!(matches!(e, Err(NlError::Lookup(19))));
}

#[test]
fn created_result_maps_both_outcomes() {
    let h = CanInterface::created_result(Ok(8)).unwrap();
    assert_eq!(h.index(), 8);
    let e = CanInterface::created_result(Err(19));
    assert!(matches!(e, Err(NlError::InterfaceGone)));
}

#[test]
fn create_resolve_trusts_given_index() {
    let h = CanInterface::create_resolve("whatever", Some(11)).unwrap();
    assert_eq!(h.index(), 11);
}

#[test]
fn create_resolve_race_is_reported() {
    // the freshly created name cannot be resolved any more
    let r = CanInterface::create_resolve("no_such_iface_1", None);
    assert!(matches!(r, Err(NlError::InterfaceGone)));
}

#[test]
fn interpret_ack_cases() {
    assert!(interpret_ack(Some(&wire_error_record(0))).is_ok());
    assert_eq!(
        interpret_ack(Some(&wire_error_record(-1))),
        Err(NlError::Kernel(1))
    );
    assert_eq!(
        interpret_ack(Some(&wire_error_record(-95))),
        Err(NlError::Kernel(95))
    );
    assert_eq!(interpret_ack(None), Err(NlError::NoAck));
    // a payload reply where an acknowledgment was expected
    assert_eq!(
        interpret_ack(Some(&wire_details_reply(0, &[]))),
        Err(NlError::NoAck)
    );
    // too short for its own framing
    assert_eq!(interpret_ack(Some(&[20, 0, 0, 0])), Err(NlError::Malformed));
    // an error record with no room for its code
    assert_eq!(
        interpret_ack(Some(&wire_frame(2, &[]))),
        Err(NlError::Malformed)
    );
}

#[test]
fn parse_details_roundtrip() {
    let mut attrs: Vec<u8> = Vec::new();
    attrs.extend_from_slice(&wire_attr(3, &[99, 97, 110, 48, 0])); // name "can0"
    attrs.extend_from_slice(&wire_attr(4, &le32(72))); // MTU 72
    let reply = wire_details_reply(1, &attrs);
    let d = parse_details(9, Some(&reply)).unwrap();
    assert_eq!(d.name.as_deref(), Some("can0"));
    assert_eq!(d.index, 9);
    assert!(d.is_up);
    assert_eq!(d.mtu, Some(Mtu::Fd));
}

#[test]
fn parse_details_down_and_standard_mtu() {
    let mut attrs: Vec<u8> = Vec::new();
    attrs.extend_from_slice(&wire_attr(3, &[118, 99, 97, 110, 48, 0])); // "vcan0"
    attrs.extend_from_slice(&wire_attr(4, &le32(16)));
    let d = parse_details(1, Some(&wire_details_reply(0, &attrs))).unwrap();
    assert_eq!(d.name.as_deref(), Some("vcan0"));
    assert!(!d.is_up);
    assert_eq!(d.mtu, Some(Mtu::Standard));
}

#[test]
fn parse_details_unknown_mtu_is_unset() {
    // an MTU outside the allow-list is not passed through
    let attrs = wire_attr(4, &le32(1500));
    let d = parse_details(1, Some(&wire_details_reply(0, &attrs))).unwrap();
    assert_eq!(d.mtu, None);
    // and one of the wrong width is ignored altogether
    let attrs2 = wire_attr(4, &[72, 0]);
    let d2 = parse_details(1, Some(&wire_details_reply(0, &attrs2))).unwrap();
    assert_eq!(d2.mtu, None);
}

#[test]
fn parse_details_bad_name_is_unset() {
    // invalid text
    let d = parse_details(1, Some(&wire_details_reply(0, &wire_attr(3, &[0xFF, 0xFE, 0])))).unwrap();
    assert_eq!(d.name, None);
    // no terminator
    let d2 = parse_details(1, Some(&wire_details_reply(0, &wire_attr(3, &[99, 97])))).unwrap();
    assert_eq!(d2.name, None);
    // interior NUL
    let d3 = parse_details(1, Some(&wire_details_reply(0, &wire_attr(3, &[99, 0, 97, 0])))).unwrap();
    assert_eq!(d3.name, None);
}

#[test]
fn parse_details_no_reply_is_noack() {
    assert!(matches!(parse_details(1, None), Err(NlError::NoAck)));
}

#[test]
fn parse_details_kernel_error_surfaces() {
    // querying a deleted interface: the kernel answers "no such device"
    let r = parse_details(1, Some(&wire_error_record(-19)));
    assert!(matches!(r, Err(NlError::Kernel(19))));
}

#[test]
fn parse_details_truncated_attrs_malformed() {
    // declared attribute length runs past the buffer
    let attrs = vec![40, 0, 3, 0, 1, 2, 3, 4];
    let r = parse_details(1, Some(&wire_details_reply(0, &attrs)));
    assert!(matches!(r, Err(NlError::Malformed)));
}
