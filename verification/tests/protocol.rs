use can_netlink::codec::{decode_attrs, read_u16_le, read_u32_le, Attribute};
use can_netlink::err::NlError;
use can_netlink::timing::can_bittiming;

fn le16(x: u16) -> [u8; 2] {
    [(x % 256) as u8, (x / 256) as u8]
}

fn le32(x: u32) -> [u8; 4] {
    [
        (x % 256) as u8,
        ((x / 256) % 256) as u8,
        ((x / 65536) % 256) as u8,
        (x / 16777216) as u8,
    ]
}

#[test]
fn attr_encode_exact_bytes() {
    let a = Attribute::encode(3, vec![99, 97, 110, 48, 0]);
    let mut out: Vec<u8> = Vec::new();
    can_netlink::codec::append_attr(&mut out, &a);
    // header: length 9 (4 + 5), type 3; payload; three bytes of padding
    assert_eq!(out, vec![9, 0, 3, 0, 99, 97, 110, 48, 0, 0, 0, 0]);
}

#[test]
fn attr_nested_length_rewrite() {
    let mut parent = Attribute::encode(18, Vec::new());
    let child = Attribute::encode(1, vec![0x61, 0x62, 0]);
    parent.add_nested(&child);
    // child wire form: length 7, type 1, "ab\0", one padding byte
    assert_eq!(parent.payload, vec![7, 0, 1, 0, 0x61, 0x62, 0, 0]);
    let second = Attribute::encode(2, vec![0xAA]);
    parent.add_nested(&second);
    assert_eq!(
        parent.payload,
        vec![7, 0, 1, 0, 0x61, 0x62, 0, 0, 5, 0, 2, 0, 0xAA, 0, 0, 0]
    );
    // the enclosing length is recomputed at encoding time from the payload
    let mut out: Vec<u8> = Vec::new();
    can_netlink::codec::append_attr(&mut out, &parent);
    assert_eq!(read_u16_le(&out, 0), 4 + 16);
}

#[test]
fn attr_decode_walks_padding() {
    let mut buf: Vec<u8> = Vec::new();
    buf.extend_from_slice(&[5, 0, 7, 0, 0xFF, 0, 0, 0]);
    buf.extend_from_slice(&[6, 0, 8, 0, 1, 2, 0, 0]);
    let attrs = decode_attrs(&buf).unwrap();
    assert_eq!(attrs.len(), 2);
    assert_eq!(attrs[0].type_code, 7);
    assert_eq!(attrs[0].payload, vec![0xFF]);
    assert_eq!(attrs[1].type_code, 8);
    assert_eq!(attrs[1].payload, vec![1, 2]);
}

#[test]
fn attr_decode_preserves_unknown_types() {
    // a type code this library never inspects stays available, opaque
    let buf = vec![8, 0, 0x99, 0, 1, 2, 3, 4];
    let attrs = decode_attrs(&buf).unwrap();
    assert_eq!(attrs.len(), 1);
    assert_eq!(attrs[0].type_code, 0x99);
    assert_eq!(attrs[0].payload, vec![1, 2, 3, 4]);
}

#[test]
fn attr_decode_truncated_is_malformed() {
    // declared length 12 but only 8 bytes remain
    let buf = vec![12, 0, 7, 0, 1, 2, 3, 4];
    assert!(matches!(decode_attrs(&buf), Err(NlError::Malformed)));
}

#[test]
fn attr_decode_short_header_is_malformed() {
    let buf = vec![5, 0, 7];
    assert!(matches!(decode_attrs(&buf), Err(NlError::Malformed)));
}

#[test]
fn attr_decode_length_below_header_is_malformed() {
    let buf = vec![3, 0, 7, 0, 0, 0, 0, 0];
    assert!(matches!(decode_attrs(&buf), Err(NlError::Malformed)));
}

#[test]
fn attr_decode_empty_is_empty() {
    let buf: Vec<u8> = Vec::new();
    assert_eq!(decode_attrs(&buf).unwrap().len(), 0);
}

#[test]
fn attr_roundtrip_many() {
    let mut buf: Vec<u8> = Vec::new();
    let inputs: Vec<(u16, Vec<u8>)> = vec![
        (3, vec![99, 97, 110, 48, 0]),
        (4, le32(72).to_vec()),
        (30, le32(1).to_vec()),
        (0x88, Vec::new()),
    ];
    for (t, p) in &inputs {
        let a = Attribute::encode(*t, p.clone());
        can_netlink::codec::append_attr(&mut buf, &a);
    }
    let attrs = decode_attrs(&buf).unwrap();
    assert_eq!(attrs.len(), inputs.len());
    for (a, (t, p)) in attrs.iter().zip(inputs.iter()) {
        assert_eq!(a.type_code, *t);
        assert_eq!(&a.payload, p);
    }
}

#[test]
fn words_roundtrip_through_bytes() {
    let mut out: Vec<u8> = Vec::new();
    can_netlink::codec::push_u16_le(&mut out, 0xBEEF);
    can_netlink::codec::push_u32_le(&mut out, 0xDEADBEEF);
    assert_eq!(out[0..2], le16(0xBEEF));
    assert_eq!(out[2..6], le32(0xDEADBEEF));
    assert_eq!(read_u16_le(&out, 0), 0xBEEF);
    assert_eq!(read_u32_le(&out, 2), 0xDEADBEEF);
}

#[test]
fn timing_encode_exact_bytes() {
    let t = can_bittiming {
        bitrate: 500000,
        sample_point: 750,
        tq: 0,
        prop_seg: 0,
        phase_seg1: 0,
        phase_seg2: 0,
        sjw: 0,
        brp: 0,
    };
    let b = t.encode();
    assert_eq!(b.len(), 32);
    assert_eq!(b[0..4], le32(500000));
    assert_eq!(b[4..8], le32(750));
    assert!(b[8..32].iter().all(|x| *x == 0));
}

#[test]
fn timing_roundtrip() {
    let t = can_bittiming {
        bitrate: 125000,
        sample_point: 875,
        tq: 50,
        prop_seg: 6,
        phase_seg1: 7,
        phase_seg2: 2,
        sjw: 1,
        brp: 4,
    };
    let back = can_bittiming::decode(&t.encode()).unwrap();
    assert_eq!(back, t);
}

#[test]
fn timing_decode_wrong_length_is_none() {
    assert!(can_bittiming::decode(&[0u8; 31]).is_none());
    assert!(can_bittiming::decode(&[0u8; 33]).is_none());
    assert!(can_bittiming::decode(&[]).is_none());
}
