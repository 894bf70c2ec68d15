use babel_rs::addr::IpAddr;
use babel_rs::tlv::{Cursor, SubTlv, Tlv};

fn roundtrip(original: &Tlv) -> Tlv {
    let bytes = original.to_bytes();
    let mut cur = Cursor::new(bytes.as_slice());
    let parsed = Tlv::parse(&mut cur).unwrap();
    assert_eq!(cur.position(), bytes.len());
    parsed
}

// --- Basic TLVs ---

#[test]
fn pad1_to_bytes() {
    let pad1 = Tlv::Pad1;
    assert_eq!(pad1.to_bytes(), vec![0]);
}

#[test]
fn padn_to_bytes() {
    let pad4 = Tlv::PadN { n: 4 };
    assert_eq!(pad4.to_bytes(), vec![1, 4, 0, 0, 0, 0]);
}

#[test]
fn padn_roundtrip() {
    let original = Tlv::PadN { n: 3 };
    let bytes = original.to_bytes();
    let mut cur = Cursor::new(bytes.as_slice());
    let parsed = Tlv::parse(&mut cur).unwrap();
    assert_eq!(parsed, original);
}

#[test]
fn ack_request_to_bytes() {
    let ackreq = Tlv::AckRequest { opaque: 278, interval: 400, sub_tlvs: Vec::new() };
    assert_eq!(ackreq.to_bytes(), vec![2, 6, 0, 0, 1, 22, 1, 144]);
}

#[test]
fn ack_to_bytes() {
    let ack = Tlv::Ack { opaque: 278, sub_tlvs: Vec::new() };
    assert_eq!(ack.to_bytes(), vec![3, 2, 1, 22]);
}

#[test]
fn hello_to_bytes() {
    let hello = Tlv::Hello { flags: 0, seqno: 278, interval: 400, sub_tlvs: Vec::new() };
    assert_eq!(hello.to_bytes(), vec![4, 6, 0, 0, 1, 22, 1, 144]);
}

#[test]
fn hello_roundtrip() {
    let original = Tlv::Hello { flags: 0x0102, seqno: 0x2030, interval: 1000, sub_tlvs: Vec::new() };
    let bytes = original.to_bytes();
    let mut cur = Cursor::new(bytes.as_slice());
    let parsed = Tlv::parse(&mut cur).unwrap();
    assert_eq!(parsed, original);
}

// --- TLVs with addresses ---

#[test]
fn ihu_ipv4_roundtrip() {
    let original = Tlv::Ihu {
        ae: 1,
        rxcost: 256,
        interval: 200,
        addr: Some(IpAddr::V4([192, 0, 2, 1])),
        sub_tlvs: Vec::new(),
    };
    let bytes = original.to_bytes();
    let mut cur = Cursor::new(bytes.as_slice());
    let parsed = Tlv::parse(&mut cur).unwrap();
    assert_eq!(parsed, original);
}

#[test]
fn ihu_ipv6_roundtrip() {
    let original = Tlv::Ihu {
        ae: 2,
        rxcost: 100,
        interval: 50,
        addr: Some(IpAddr::V6([0, 0, 0, 0, 0, 0, 0, 0, 0, 0, 0, 0, 0, 0, 0, 1])),
        sub_tlvs: Vec::new(),
    };
    let bytes = original.to_bytes();
    let mut cur = Cursor::new(bytes.as_slice());
    let parsed = Tlv::parse(&mut cur).unwrap();
    assert_eq!(parsed, original);
}

#[test]
fn nexthop_ipv4_roundtrip() {
    let original =
        Tlv::NextHop { ae: 1, addr: Some(IpAddr::V4([10, 0, 0, 1])), sub_tlvs: Vec::new() };
    let bytes = original.to_bytes();
    let mut cur = Cursor::new(bytes.as_slice());
    let parsed = Tlv::parse(&mut cur).unwrap();
    assert_eq!(parsed, original);
}

#[test]
fn router_id_roundtrip() {
    let original = Tlv::RouterId { router_id: [1, 2, 3, 4, 5, 6, 7, 8], sub_tlvs: Vec::new() };
    let bytes = original.to_bytes();
    let mut cur = Cursor::new(bytes.as_slice());
    let parsed = Tlv::parse(&mut cur).unwrap();
    assert_eq!(parsed, original);
}

// --- Prefix-carrying TLVs ---

#[test]
fn update_roundtrip_simple_prefix() {
    // /24 IPv4-like prefix: 192.0.2.0/24 -> 3 bytes of prefix
    let original = Tlv::Update {
        ae: 1,
        flags: 0,
        plen: 24,
        omitted: 0,
        interval: 500,
        seqno: 10,
        metric: 256,
        prefix: vec![192, 0, 2],
        sub_tlvs: Vec::new(),
    };
    let bytes = original.to_bytes();
    let mut cur = Cursor::new(bytes.as_slice());
    let parsed = Tlv::parse(&mut cur).unwrap();
    assert_eq!(parsed, original);
}

#[test]
fn route_request_roundtrip() {
    let original =
        Tlv::RouteRequest { ae: 1, plen: 16, prefix: vec![10, 0], sub_tlvs: Vec::new() };
    let bytes = original.to_bytes();
    let mut cur = Cursor::new(bytes.as_slice());
    let parsed = Tlv::parse(&mut cur).unwrap();
    assert_eq!(parsed, original);
}

#[test]
fn seqno_request_roundtrip() {
    let original = Tlv::SeqnoRequest {
        ae: 1,
        plen: 24,
        seqno: 42,
        hop_count: 3,
        router_id: [0xaa, 0xbb, 0xcc, 0xdd, 1, 2, 3, 4],
        prefix: vec![192, 0, 2],
        sub_tlvs: Vec::new(),
    };
    let bytes = original.to_bytes();
    let mut cur = Cursor::new(bytes.as_slice());
    let parsed = Tlv::parse(&mut cur).unwrap();
    assert_eq!(parsed, original);
}

// --- Unknown TLV ---

#[test]
fn unknown_tlv_roundtrip() {
    let original = Tlv::Unknown { tlv_type: 250, data: vec![1, 2, 3, 4] };
    let bytes = original.to_bytes();
    let mut cur = Cursor::new(bytes.as_slice());
    let parsed = Tlv::parse(&mut cur).unwrap();
    assert_eq!(parsed, original);
}

// --- Sub-TLVs ---

#[test]
fn subtlv_pad1_to_bytes_and_parse() {
    let st = SubTlv::Pad1;
    let bytes = st.to_bytes();
    assert_eq!(bytes, vec![0]);

    let parsed = SubTlv::parse_list(&bytes).unwrap();
    assert_eq!(parsed, vec![SubTlv::Pad1]);
}

#[test]
fn subtlv_padn_to_bytes_and_parse() {
    let st = SubTlv::PadN { n: 3 };
    let bytes = st.to_bytes();
    // type=1, len=3, then 3 MBZ bytes
    assert_eq!(bytes, vec![1, 3, 0, 0, 0]);

    let parsed = SubTlv::parse_list(&bytes).unwrap();
    assert_eq!(parsed, vec![SubTlv::PadN { n: 3 }]);
}

#[test]
fn subtlv_unknown_roundtrip() {
    let st = SubTlv::Unknown { stype: 99, data: vec![0xaa, 0xbb] };
    let bytes = st.to_bytes();
    let parsed = SubTlv::parse_list(&bytes).unwrap();
    assert_eq!(parsed, vec![st]);
}

#[test]
fn tlv_with_subtlvs_roundtrip() {
    let hello = Tlv::Hello {
        flags: 1,
        seqno: 2,
        interval: 3,
        sub_tlvs: vec![
            SubTlv::Pad1,
            SubTlv::PadN { n: 2 },
            SubTlv::Unknown { stype: 10, data: vec![0xde, 0xad] },
        ],
    };

    let bytes = hello.to_bytes();
    let mut cur = Cursor::new(bytes.as_slice());
    let parsed = Tlv::parse(&mut cur).unwrap();
    assert_eq!(parsed, hello);
}

// --- parse_all ---

#[test]
fn parse_all_multiple_tlvs() {
    let t1 = Tlv::Pad1;
    let t2 = Tlv::PadN { n: 2 };
    let t3 = Tlv::Ack { opaque: 42, sub_tlvs: Vec::new() };

    let mut buf = Vec::new();
    buf.extend(t1.to_bytes());
    buf.extend(t2.to_bytes());
    buf.extend(t3.to_bytes());

    let parsed = Tlv::parse_all(&buf).unwrap();
    assert_eq!(parsed, vec![t1, t2, t3]);
}

// --- Exact bytes, every variant ---

#[test]
fn ihu_to_bytes_exact() {
    let ihu = Tlv::Ihu {
        ae: 1,
        rxcost: 256,
        interval: 200,
        addr: Some(IpAddr::V4([192, 0, 2, 1])),
        sub_tlvs: Vec::new(),
    };
    assert_eq!(ihu.to_bytes(), vec![5, 10, 1, 0, 1, 0, 0, 200, 192, 0, 2, 1]);
}

#[test]
fn router_id_to_bytes_exact() {
    let t = Tlv::RouterId { router_id: [1, 2, 3, 4, 5, 6, 7, 8], sub_tlvs: Vec::new() };
    assert_eq!(t.to_bytes(), vec![6, 10, 0, 0, 1, 2, 3, 4, 5, 6, 7, 8]);
}

#[test]
fn next_hop_to_bytes_exact() {
    let t = Tlv::NextHop { ae: 1, addr: Some(IpAddr::V4([10, 0, 0, 1])), sub_tlvs: Vec::new() };
    assert_eq!(t.to_bytes(), vec![7, 6, 1, 0, 10, 0, 0, 1]);
    let none = Tlv::NextHop { ae: 0, addr: None, sub_tlvs: Vec::new() };
    assert_eq!(none.to_bytes(), vec![7, 2, 0, 0]);
}

#[test]
fn update_to_bytes_exact() {
    let t = Tlv::Update {
        ae: 1,
        flags: 0x80,
        plen: 24,
        omitted: 0,
        interval: 500,
        seqno: 10,
        metric: 256,
        prefix: vec![192, 0, 2],
        sub_tlvs: vec![SubTlv::Pad1],
    };
    assert_eq!(
        t.to_bytes(),
        vec![8, 14, 1, 0x80, 24, 0, 1, 244, 0, 10, 1, 0, 192, 0, 2, 0]
    );
}

#[test]
fn route_request_to_bytes_exact() {
    let t = Tlv::RouteRequest { ae: 1, plen: 16, prefix: vec![10, 0], sub_tlvs: Vec::new() };
    assert_eq!(t.to_bytes(), vec![9, 4, 1, 16, 10, 0]);
}

#[test]
fn seqno_request_to_bytes_exact() {
    let t = Tlv::SeqnoRequest {
        ae: 1,
        plen: 24,
        seqno: 42,
        hop_count: 3,
        router_id: [0xaa, 0xbb, 0xcc, 0xdd, 1, 2, 3, 4],
        prefix: vec![192, 0, 2],
        sub_tlvs: Vec::new(),
    };
    assert_eq!(
        t.to_bytes(),
        vec![10, 17, 1, 24, 0, 42, 3, 0, 0xaa, 0xbb, 0xcc, 0xdd, 1, 2, 3, 4, 192, 0, 2]
    );
}

#[test]
fn unknown_to_bytes_exact() {
    let t = Tlv::Unknown { tlv_type: 250, data: vec![1, 2, 3, 4] };
    assert_eq!(t.to_bytes(), vec![250, 4, 1, 2, 3, 4]);
}

#[test]
fn length_octet_wraps_at_256() {
    let t = Tlv::Unknown { tlv_type: 200, data: vec![7; 300] };
    let bytes = t.to_bytes();
    assert_eq!(bytes.len(), 302);
    assert_eq!(bytes[1], 44);
    let st = SubTlv::Unknown { stype: 9, data: vec![1; 256] };
    assert_eq!(st.to_bytes()[1], 0);
}

#[test]
fn subtlv_len_counts_header() {
    assert_eq!(SubTlv::Pad1.len(), 1);
    assert_eq!(SubTlv::PadN { n: 3 }.len(), 5);
    assert_eq!(SubTlv::Unknown { stype: 99, data: vec![1, 2] }.len(), 4);
}

// --- Reading ---

#[test]
fn big_endian_fields_are_read() {
    let bytes = vec![4, 6, 0x01, 0x02, 0x20, 0x30, 0x03, 0xe8];
    let mut cur = Cursor::new(bytes.as_slice());
    let parsed = Tlv::parse(&mut cur).unwrap();
    assert_eq!(
        parsed,
        Tlv::Hello { flags: 0x0102, seqno: 0x2030, interval: 1000, sub_tlvs: Vec::new() }
    );
}

#[test]
fn reserved_octets_are_skipped() {
    let bytes = vec![2, 6, 0xff, 0xee, 1, 22, 1, 144];
    let mut cur = Cursor::new(bytes.as_slice());
    let parsed = Tlv::parse(&mut cur).unwrap();
    assert_eq!(parsed, Tlv::AckRequest { opaque: 278, interval: 400, sub_tlvs: Vec::new() });
}

#[test]
fn address_follows_encoding() {
    // ae = 3 reads sixteen octets as IPv6
    let mut bytes = vec![7, 18, 3, 0];
    bytes.extend(vec![0xfe, 0x80, 0, 0, 0, 0, 0, 0, 0, 0, 0, 0, 0, 0, 0, 9]);
    let mut cur = Cursor::new(bytes.as_slice());
    let parsed = Tlv::parse(&mut cur).unwrap();
    assert_eq!(
        parsed,
        Tlv::NextHop {
            ae: 3,
            addr: Some(IpAddr::V6([0xfe, 0x80, 0, 0, 0, 0, 0, 0, 0, 0, 0, 0, 0, 0, 0, 9])),
            sub_tlvs: Vec::new(),
        }
    );
    // ae = 0 reads no address; what follows is sub-TLVs
    let bytes = vec![5, 7, 0, 0, 0, 96, 0, 10, 0];
    let mut cur = Cursor::new(bytes.as_slice());
    let parsed = Tlv::parse(&mut cur).unwrap();
    assert_eq!(
        parsed,
        Tlv::Ihu { ae: 0, rxcost: 96, interval: 10, addr: None, sub_tlvs: vec![SubTlv::Pad1] }
    );
}

#[test]
fn update_prefix_is_shortened_by_omitted() {
    // plen 24 -> 3 octets, omitted 2 -> 1 octet on the wire
    let bytes = vec![8, 11, 1, 0, 24, 2, 0, 1, 0, 2, 0, 3, 77];
    let mut cur = Cursor::new(bytes.as_slice());
    let parsed = Tlv::parse(&mut cur).unwrap();
    assert_eq!(
        parsed,
        Tlv::Update {
            ae: 1,
            flags: 0,
            plen: 24,
            omitted: 2,
            interval: 1,
            seqno: 2,
            metric: 3,
            prefix: vec![77],
            sub_tlvs: Vec::new(),
        }
    );
    // omitted beyond the prefix leaves none
    let bytes = vec![8, 10, 1, 0, 8, 9, 0, 1, 0, 2, 0, 3];
    let mut cur = Cursor::new(bytes.as_slice());
    match Tlv::parse(&mut cur).unwrap() {
        Tlv::Update { prefix, .. } => assert_eq!(prefix, Vec::<u8>::new()),
        other => panic!("not an update: {:?}", other),
    }
}

#[test]
fn parse_moves_the_cursor() {
    let bytes = vec![0, 1, 2, 0, 0, 3, 2, 0, 42];
    let mut cur = Cursor::new(bytes.as_slice());
    assert_eq!(Tlv::parse(&mut cur).unwrap(), Tlv::Pad1);
    assert_eq!(cur.position(), 1);
    assert_eq!(Tlv::parse(&mut cur).unwrap(), Tlv::PadN { n: 2 });
    assert_eq!(cur.position(), 5);
    assert_eq!(Tlv::parse(&mut cur).unwrap(), Tlv::Ack { opaque: 42, sub_tlvs: Vec::new() });
    assert_eq!(cur.position(), 9);
    assert_eq!(Tlv::parse(&mut cur).unwrap_err(), "EOF");
    assert_eq!(cur.position(), 9);
    assert_eq!(cur.get_ref(), bytes.as_slice());
}

#[test]
fn parse_errors() {
    let empty: Vec<u8> = Vec::new();
    let mut cur = Cursor::new(empty.as_slice());
    assert_eq!(Tlv::parse(&mut cur).unwrap_err(), "EOF");

    let past = vec![0u8];
    let mut cur = Cursor::new(past.as_slice());
    cur.set_position(5);
    assert_eq!(Tlv::parse(&mut cur).unwrap_err(), "EOF");
    assert_eq!(cur.position(), 5);

    let no_length = vec![4u8];
    let mut cur = Cursor::new(no_length.as_slice());
    assert_eq!(Tlv::parse(&mut cur).unwrap_err(), "failed to fill whole buffer");
    assert_eq!(cur.position(), 1);

    let overrun = vec![4u8, 6, 0, 0];
    let mut cur = Cursor::new(overrun.as_slice());
    assert_eq!(Tlv::parse(&mut cur).unwrap_err(), "Length exceeds buffer");
    assert_eq!(cur.position(), 2);

    let short_fields = vec![4u8, 3, 0, 0, 1];
    let mut cur = Cursor::new(short_fields.as_slice());
    assert_eq!(Tlv::parse(&mut cur).unwrap_err(), "failed to fill whole buffer");
    assert_eq!(cur.position(), 5);

    // the prefix overruns the TLV body
    let short_prefix = vec![9u8, 3, 1, 16, 10];
    let mut cur = Cursor::new(short_prefix.as_slice());
    assert_eq!(Tlv::parse(&mut cur).unwrap_err(), "failed to fill whole buffer");
    let short_update = vec![8u8, 11, 1, 0, 24, 0, 0, 1, 0, 2, 0, 3, 192];
    let mut cur = Cursor::new(short_update.as_slice());
    assert_eq!(Tlv::parse(&mut cur).unwrap_err(), "failed to fill whole buffer");
    let short_seqno = vec![10u8, 15, 1, 16, 0, 1, 2, 0, 1, 2, 3, 4, 5, 6, 7, 8, 10];
    let mut cur = Cursor::new(short_seqno.as_slice());
    assert_eq!(Tlv::parse(&mut cur).unwrap_err(), "failed to fill whole buffer");

    // a sub-TLV that counts more than is left
    let bad_sub = vec![3u8, 5, 0, 42, 7, 4, 1];
    let mut cur = Cursor::new(bad_sub.as_slice());
    assert_eq!(Tlv::parse(&mut cur).unwrap_err(), "failed to fill whole buffer");
}

#[test]
fn parse_list_errors() {
    assert_eq!(SubTlv::parse_list(&[5]).unwrap_err(), "failed to fill whole buffer");
    assert_eq!(SubTlv::parse_list(&[5, 2, 1]).unwrap_err(), "failed to fill whole buffer");
    assert_eq!(SubTlv::parse_list(&[]).unwrap(), Vec::<SubTlv>::new());
    // the padding of a PadN is not looked at
    assert_eq!(SubTlv::parse_list(&[1, 2, 9, 9, 0]).unwrap(), vec![
        SubTlv::PadN { n: 2 },
        SubTlv::Pad1
    ]);
}

#[test]
fn parse_all_fails_on_what_cannot_be_read() {
    // two good TLVs, then a Hello whose length runs past the buffer
    let buf = vec![0u8, 3, 2, 0, 42, 4, 6, 0];
    assert_eq!(Tlv::parse_all(&buf).unwrap_err(), "Length exceeds buffer");
    // a valid Hello, then an Update whose length runs past the buffer
    let buf = vec![4u8, 6, 0, 0, 1, 22, 1, 144, 8, 20, 1];
    assert_eq!(Tlv::parse_all(&buf).unwrap_err(), "Length exceeds buffer");
    // a type octet without a length octet
    assert_eq!(Tlv::parse_all(&[0, 4]).unwrap_err(), "failed to fill whole buffer");
    // a body too short for its fields
    assert_eq!(Tlv::parse_all(&[0, 4, 2, 0, 0]).unwrap_err(), "failed to fill whole buffer");
    // a malformed sub-TLV
    assert_eq!(Tlv::parse_all(&[3, 4, 0, 42, 7, 9]).unwrap_err(), "failed to fill whole buffer");
}

#[test]
fn parse_all_ends_at_the_end_of_the_buffer() {
    assert_eq!(Tlv::parse_all(&[]).unwrap(), Vec::<Tlv>::new());
    let buf = vec![0u8, 3, 2, 0, 42];
    let parsed = Tlv::parse_all(&buf).unwrap();
    assert_eq!(parsed, vec![Tlv::Pad1, Tlv::Ack { opaque: 42, sub_tlvs: Vec::new() }]);
    let buf = vec![4u8, 6, 0, 0, 1, 22, 1, 144];
    let parsed = Tlv::parse_all(&buf).unwrap();
    assert_eq!(
        parsed,
        vec![Tlv::Hello { flags: 0, seqno: 278, interval: 400, sub_tlvs: Vec::new() }]
    );
}

#[test]
fn unknown_tlv_is_kept_byte_for_byte() {
    let bytes = vec![77u8, 3, 9, 8, 7];
    let mut cur = Cursor::new(bytes.as_slice());
    let parsed = Tlv::parse(&mut cur).unwrap();
    assert_eq!(parsed, Tlv::Unknown { tlv_type: 77, data: vec![9, 8, 7] });
    assert_eq!(parsed.to_bytes(), bytes);
}

#[test]
fn every_variant_roundtrips_with_subtlvs() {
    let subs = vec![SubTlv::Pad1, SubTlv::PadN { n: 1 }, SubTlv::Unknown { stype: 200, data: vec![5] }];
    let all = vec![
        Tlv::Pad1,
        Tlv::PadN { n: 0 },
        Tlv::AckRequest { opaque: 65535, interval: 0, sub_tlvs: subs.clone() },
        Tlv::Ack { opaque: 1, sub_tlvs: subs.clone() },
        Tlv::Hello { flags: 0x8000, seqno: 65535, interval: 256, sub_tlvs: subs.clone() },
        Tlv::Ihu {
            ae: 3,
            rxcost: 65535,
            interval: 1,
            addr: Some(IpAddr::V6([0xfe, 0x80, 0, 0, 0, 0, 0, 0, 1, 2, 3, 4, 5, 6, 7, 8])),
            sub_tlvs: subs.clone(),
        },
        Tlv::Ihu { ae: 0, rxcost: 1, interval: 2, addr: None, sub_tlvs: Vec::new() },
        Tlv::RouterId { router_id: [255, 0, 255, 0, 1, 2, 3, 4], sub_tlvs: subs.clone() },
        Tlv::NextHop { ae: 9, addr: None, sub_tlvs: subs.clone() },
        Tlv::Update {
            ae: 2,
            flags: 1,
            plen: 64,
            omitted: 3,
            interval: 9,
            seqno: 8,
            metric: 65535,
            prefix: vec![1, 2, 3, 4, 5],
            sub_tlvs: subs.clone(),
        },
        Tlv::RouteRequest { ae: 0, plen: 0, prefix: Vec::new(), sub_tlvs: subs.clone() },
        Tlv::SeqnoRequest {
            ae: 2,
            plen: 9,
            seqno: 300,
            hop_count: 255,
            router_id: [8, 7, 6, 5, 4, 3, 2, 1],
            prefix: vec![0x20, 0x80],
            sub_tlvs: subs.clone(),
        },
        Tlv::Unknown { tlv_type: 11, data: Vec::new() },
    ];
    for t in &all {
        assert_eq!(&roundtrip(t), t);
    }
    let mut buf = Vec::new();
    for t in &all {
        buf.extend(t.to_bytes());
    }
    assert_eq!(Tlv::parse_all(&buf).unwrap(), all);
}
