use babel_rs::addr::IpAddr;
use babel_rs::packet::{Packet, BABEL_PORT, MULTICAST_V4_ADDR, MULTICAST_V6_ADDR};
use babel_rs::tlv::Tlv;

#[test]
fn test_build_and_serialize() {
    let pkt = Packet::build_hello(0x0001, 42, 1000);
    let bytes = pkt.to_bytes();
    assert!(bytes.len() > 4); // header + at least one TLV
}

#[test]
fn constants() {
    assert_eq!(BABEL_PORT, 6696);
    assert_eq!(MULTICAST_V4_ADDR, [224, 0, 0, 111]);
    assert_eq!(MULTICAST_V6_ADDR, [0xff, 0x02, 0, 0, 0, 0, 0, 0, 0, 0, 0, 0, 0, 0, 0, 6]);
    assert_eq!(Packet::magic(), 0x2a);
    assert_eq!(Packet::version(), 2);
}

#[test]
fn header_is_always_written() {
    assert_eq!(Packet::new().to_bytes(), vec![42, 2, 0, 0]);
    let pkt = Packet::build_hello(0, 278, 400);
    assert_eq!(pkt.to_bytes(), vec![42, 2, 0, 8, 4, 6, 0, 0, 1, 22, 1, 144]);
    assert_eq!(pkt.body_len(), 8);
}

#[test]
fn body_length_is_big_endian() {
    let mut pkt = Packet::new();
    pkt.add_tlv(Tlv::Unknown { tlv_type: 99, data: vec![0; 255] });
    pkt.add_tlv(Tlv::Unknown { tlv_type: 99, data: vec![0; 41] });
    let bytes = pkt.to_bytes();
    assert_eq!(pkt.body_len(), 300);
    assert_eq!(&bytes[..4], &[42, 2, 1, 44]);
    assert_eq!(bytes.len(), 304);
}

#[test]
fn packet_roundtrip() {
    let tlvs = vec![
        Tlv::Hello { flags: 0, seqno: 7, interval: 400, sub_tlvs: Vec::new() },
        Tlv::RouterId { router_id: [1, 2, 3, 4, 5, 6, 7, 8], sub_tlvs: Vec::new() },
        Tlv::Pad1,
        Tlv::Unknown { tlv_type: 42, data: vec![1, 2, 3] },
    ];
    let pkt = Packet::with_tlvs(tlvs.clone());
    let back = Packet::from_bytes(&pkt.to_bytes()).unwrap();
    assert_eq!(back, pkt);
    assert_eq!(back.tlvs(), &tlvs);
    assert_eq!(back.into_tlvs(), tlvs);
}

#[test]
fn framing_window() {
    // the header counts one byte: what follows it is ignored
    let pkt = Packet::from_bytes(&[0x2a, 0x02, 0, 1, 0, 3, 2, 0, 42]).unwrap();
    assert_eq!(pkt.into_tlvs(), vec![Tlv::Pad1]);
    // the header counts the whole rest
    let pkt = Packet::from_bytes(&[0x2a, 0x02, 0, 5, 0, 3, 2, 0, 42]).unwrap();
    assert_eq!(pkt.into_tlvs(), vec![Tlv::Pad1, Tlv::Ack { opaque: 42, sub_tlvs: Vec::new() }]);
    // the header counts more than there is
    let err = Packet::from_bytes(&[0x2a, 0x02, 0, 6, 0, 3, 2, 0, 42]).unwrap_err();
    assert_eq!(err, "Babel body length exceeds buffer");
    let err = Packet::from_bytes(&[0x2a, 0x02, 1, 0]).unwrap_err();
    assert_eq!(err, "Babel body length exceeds buffer");
    assert_eq!(Packet::from_bytes(&[0x2a, 0x02, 0, 0]).unwrap().into_tlvs(), Vec::<Tlv>::new());
}

#[test]
fn unframed_buffer_is_read_as_tlvs() {
    let pkt = Packet::from_bytes(&[0, 3, 2, 0, 42]).unwrap();
    assert_eq!(pkt.into_tlvs(), vec![Tlv::Pad1, Tlv::Ack { opaque: 42, sub_tlvs: Vec::new() }]);
    // magic without the version is no header
    let pkt = Packet::from_bytes(&[0x2a, 0x03, 0, 0, 9]).unwrap();
    assert_eq!(pkt.into_tlvs(), vec![Tlv::Unknown { tlv_type: 0x2a, data: vec![0, 0, 9] }]);
    // three bytes are no header either: a TLV of type 42 with two bytes of body
    let pkt = Packet::from_bytes(&[0x2a, 0x02, 0, 7]).unwrap_err();
    assert_eq!(pkt, "Babel body length exceeds buffer");
    let pkt = Packet::from_bytes(&[0x2a, 0x01, 9]).unwrap();
    assert_eq!(pkt.into_tlvs(), vec![Tlv::Unknown { tlv_type: 0x2a, data: vec![9] }]);
    // without a header, a TLV that runs past the end makes the buffer invalid
    let err = Packet::from_bytes(&[0x2a, 0x02, 0]).unwrap_err();
    assert_eq!(err, "Length exceeds buffer");
    assert_eq!(Packet::from_bytes(&[]).unwrap().into_tlvs(), Vec::<Tlv>::new());
}

#[test]
fn malformed_tlv_makes_the_packet_invalid() {
    // inside the framed body, a Hello whose length runs past the frame
    let err = Packet::from_bytes(&[0x2a, 0x02, 0, 4, 0, 4, 6, 0]).unwrap_err();
    assert_eq!(err, "Length exceeds buffer");
    // the frame cuts a TLV that the buffer would hold in full
    let err = Packet::from_bytes(&[0x2a, 0x02, 0, 3, 3, 2, 0, 42]).unwrap_err();
    assert_eq!(err, "Length exceeds buffer");
    // a body too short for the fields of its type
    let err = Packet::from_bytes(&[0x2a, 0x02, 0, 3, 4, 1, 0]).unwrap_err();
    assert_eq!(err, "failed to fill whole buffer");
    // a valid Hello, then an Update whose length runs past the buffer
    let err =
        Packet::from_bytes(&[0x2a, 0x02, 0, 11, 4, 6, 0, 0, 1, 22, 1, 144, 8, 20, 1]).unwrap_err();
    assert_eq!(err, "Length exceeds buffer");
    // what lies behind the frame is not read, malformed or not
    let pkt = Packet::from_bytes(&[0x2a, 0x02, 0, 1, 0, 4, 6, 0]).unwrap();
    assert_eq!(pkt.into_tlvs(), vec![Tlv::Pad1]);
}

#[test]
fn builders() {
    assert_eq!(Packet::build_pad1().into_tlvs(), vec![Tlv::Pad1]);
    assert_eq!(Packet::build_padn(4).into_tlvs(), vec![Tlv::PadN { n: 4 }]);
    assert_eq!(
        Packet::build_ack_request(278, 400).into_tlvs(),
        vec![Tlv::AckRequest { opaque: 278, interval: 400, sub_tlvs: Vec::new() }]
    );
    assert_eq!(
        Packet::build_ack(278).into_tlvs(),
        vec![Tlv::Ack { opaque: 278, sub_tlvs: Vec::new() }]
    );
    assert_eq!(
        Packet::build_hello(1, 2, 3).into_tlvs(),
        vec![Tlv::Hello { flags: 1, seqno: 2, interval: 3, sub_tlvs: Vec::new() }]
    );
    let ip = Some(IpAddr::V4([10, 0, 0, 1]));
    assert_eq!(
        Packet::build_ihu(1, 256, 4000, ip).into_tlvs(),
        vec![Tlv::Ihu { ae: 1, rxcost: 256, interval: 4000, addr: ip, sub_tlvs: Vec::new() }]
    );
    assert_eq!(
        Packet::build_router_id([1; 8]).into_tlvs(),
        vec![Tlv::RouterId { router_id: [1; 8], sub_tlvs: Vec::new() }]
    );
    assert_eq!(
        Packet::build_next_hop(0, None).into_tlvs(),
        vec![Tlv::NextHop { ae: 0, addr: None, sub_tlvs: Vec::new() }]
    );
    assert_eq!(
        Packet::build_update(1, 2, 24, 0, 500, 10, 256, vec![192, 0, 2]).into_tlvs(),
        vec![Tlv::Update {
            ae: 1,
            flags: 2,
            plen: 24,
            omitted: 0,
            interval: 500,
            seqno: 10,
            metric: 256,
            prefix: vec![192, 0, 2],
            sub_tlvs: Vec::new(),
        }]
    );
    assert_eq!(
        Packet::build_route_request(1, 16, vec![10, 0]).into_tlvs(),
        vec![Tlv::RouteRequest { ae: 1, plen: 16, prefix: vec![10, 0], sub_tlvs: Vec::new() }]
    );
    assert_eq!(
        Packet::build_seqno_request(1, 24, 42, 3, [9; 8], vec![192, 0, 2]).into_tlvs(),
        vec![Tlv::SeqnoRequest {
            ae: 1,
            plen: 24,
            seqno: 42,
            hop_count: 3,
            router_id: [9; 8],
            prefix: vec![192, 0, 2],
            sub_tlvs: Vec::new(),
        }]
    );
}
