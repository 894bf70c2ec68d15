//! Reading what was written gives back what was written.

use crate::addr::IpAddr;
use crate::format::{
    addr_bytes, addr_fits, addr_len, addr_of, len_byte, parse_body, parse_many, parse_one,
    parse_sub_tlvs, router_id_of, subs_after, wire_of_subs, wire_of_tlvs, ParseFailure, ParseStep,
    SubTlvView, TlvView,
};
use crate::packet::{decoded, framed_body, has_header, header, packet_wire};
use crate::wire::{hi_byte, lemma_be16_of_bytes, lo_byte};
use vstd::prelude::*;

verus! {

/// Every sub-TLV of the list is canonical.
pub open spec fn subs_canonical(subs: Seq<SubTlvView>) -> bool {
    forall|i: int| 0 <= i < subs.len() ==> (#[trigger] subs[i]).canonical()
}

/// Every TLV of the list is canonical.
pub open spec fn tlvs_canonical(tlvs: Seq<TlvView>) -> bool {
    forall|i: int| 0 <= i < tlvs.len() ==> (#[trigger] tlvs[i]).canonical()
}

/// The written form of a sub-TLV is as long as `wire_len` says.
pub proof fn lemma_sub_wire_len(sub: SubTlvView)
    ensures
        sub.wire().len() == sub.wire_len(),
{
}

/// A list of canonical sub-TLVs, written and read again, is the same list.
pub proof fn lemma_sub_tlvs_roundtrip(subs: Seq<SubTlvView>)
    requires
        subs_canonical(subs),
    ensures
        parse_sub_tlvs(wire_of_subs(subs)) == Some(subs),
    decreases subs.len(),
{
    let s = wire_of_subs(subs);
    if subs.len() == 0 {
        assert(subs =~= Seq::<SubTlvView>::empty());
    } else {
        let head = subs[0];
        let tail = subs.drop_first();
        let tail_wire = wire_of_subs(tail);
        assert(subs_canonical(tail)) by {
            assert forall|i: int| 0 <= i < tail.len() implies (#[trigger] tail[i]).canonical() by {
                assert(tail[i] == subs[i + 1]);
            }
        }
        lemma_sub_tlvs_roundtrip(tail);
        assert(head.canonical());
        assert(s == head.wire() + tail_wire);
        match head {
            SubTlvView::Pad1 => {
                assert(s[0] == 0);
                assert(s.skip(1) =~= tail_wire);
            },
            SubTlvView::PadN { n } => {
                assert(s[0] == 1);
                assert(s[1] == n);
                assert(s.skip(2 + n as int) =~= tail_wire);
            },
            SubTlvView::Unknown { stype, data } => {
                assert(s[0] == stype);
                assert(s[1] == data.len());
                assert(s.subrange(2, 2 + data.len() as int) =~= data);
                assert(s.skip(2 + data.len() as int) =~= tail_wire);
            },
        }
        assert(seq![head] + tail =~= subs);
    }
}

/// The sub-TLVs of a canonical TLV are read back from behind its fixed part.
proof fn lemma_subs_after_fixed(t: TlvView)
    requires
        subs_canonical(t.subs()),
    ensures
        subs_after(t.body(), t.fixed().len()) == Some(t.subs()),
{
    lemma_sub_tlvs_roundtrip(t.subs());
    assert(t.body().skip(t.fixed().len() as int) =~= wire_of_subs(t.subs()));
}

/// The octets of the address that an encoding calls for spell that address.
proof fn lemma_addr_roundtrip(ae: u8, addr: Option<IpAddr>)
    requires
        addr_fits(ae, addr),
    ensures
        addr_bytes(addr).len() == addr_len(ae),
        addr_of(ae, addr_bytes(addr)) == addr,
{
    match addr {
        Some(IpAddr::V4(a)) => {
            let back = addr_of(ae, addr_bytes(addr));
            assert(back matches Some(IpAddr::V4(b)) && b =~= a);
        },
        Some(IpAddr::V6(a)) => {
            let back = addr_of(ae, addr_bytes(addr));
            assert(back matches Some(IpAddr::V6(b)) && b =~= a);
        },
        None => {},
    }
}

proof fn lemma_body_roundtrip_pad_n(t: TlvView)
    requires
        t.canonical(),
        t is PadN,
    ensures
        parse_body(t.type_code(), t.body()) == Some(t),
{
    let b = t.body();
    let f = t.fixed();
    assert(wire_of_subs(t.subs()) =~= Seq::<u8>::empty());
    assert(b.len() == t->PadN_n);
}

proof fn lemma_body_roundtrip_ack_request(t: TlvView)
    requires
        t.canonical(),
        t is AckRequest,
    ensures
        parse_body(t.type_code(), t.body()) == Some(t),
{
    let b = t.body();
    let f = t.fixed();
    let opaque = t->AckRequest_opaque;
    let interval = t->AckRequest_interval;
    lemma_subs_after_fixed(t);
    lemma_be16_of_bytes(opaque);
    lemma_be16_of_bytes(interval);
    assert(f.len() == 6);
    assert(b[2] == f[2] && b[3] == f[3] && b[4] == f[4] && b[5] == f[5]);
}

proof fn lemma_body_roundtrip_ack(t: TlvView)
    requires
        t.canonical(),
        t is Ack,
    ensures
        parse_body(t.type_code(), t.body()) == Some(t),
{
    let b = t.body();
    let f = t.fixed();
    let opaque = t->Ack_opaque;
    lemma_subs_after_fixed(t);
    lemma_be16_of_bytes(opaque);
    assert(f.len() == 2);
    assert(b[0] == f[0] && b[1] == f[1]);
}

proof fn lemma_body_roundtrip_hello(t: TlvView)
    requires
        t.canonical(),
        t is Hello,
    ensures
        parse_body(t.type_code(), t.body()) == Some(t),
{
    let b = t.body();
    let f = t.fixed();
    lemma_subs_after_fixed(t);
    lemma_be16_of_bytes(t->Hello_flags);
    lemma_be16_of_bytes(t->Hello_seqno);
    lemma_be16_of_bytes(t->Hello_interval);
    assert(f.len() == 6);
    assert(b[0] == f[0] && b[1] == f[1] && b[2] == f[2] && b[3] == f[3] && b[4] == f[4] && b[5]
        == f[5]);
}

proof fn lemma_body_roundtrip_ihu(t: TlvView)
    requires
        t.canonical(),
        t is Ihu,
    ensures
        parse_body(t.type_code(), t.body()) == Some(t),
{
    let b = t.body();
    let f = t.fixed();
    let ae = t->Ihu_ae;
    let addr = t->Ihu_addr;
    lemma_subs_after_fixed(t);
    lemma_be16_of_bytes(t->Ihu_rxcost);
    lemma_be16_of_bytes(t->Ihu_interval);
    lemma_addr_roundtrip(ae, addr);
    assert(f.len() == 6 + addr_len(ae));
    assert(b[0] == f[0] && b[2] == f[2] && b[3] == f[3] && b[4] == f[4] && b[5] == f[5]);
    assert(b.subrange(6, 6 + addr_len(ae) as int) =~= addr_bytes(addr));
}

proof fn lemma_body_roundtrip_router_id(t: TlvView)
    requires
        t.canonical(),
        t is RouterId,
    ensures
        parse_body(t.type_code(), t.body()) == Some(t),
{
    let b = t.body();
    let f = t.fixed();
    let router_id = t->RouterId_router_id;
    lemma_subs_after_fixed(t);
    assert(f.len() == 10);
    assert(b.subrange(2, 10) =~= router_id@);
    assert(router_id_of(b.subrange(2, 10)) =~= router_id);
}

proof fn lemma_body_roundtrip_next_hop(t: TlvView)
    requires
        t.canonical(),
        t is NextHop,
    ensures
        parse_body(t.type_code(), t.body()) == Some(t),
{
    let b = t.body();
    let f = t.fixed();
    let ae = t->NextHop_ae;
    let addr = t->NextHop_addr;
    lemma_subs_after_fixed(t);
    lemma_addr_roundtrip(ae, addr);
    assert(f.len() == 2 + addr_len(ae));
    assert(b[0] == f[0]);
    assert(b.subrange(2, 2 + addr_len(ae) as int) =~= addr_bytes(addr));
}

proof fn lemma_body_roundtrip_update(t: TlvView)
    requires
        t.canonical(),
        t is Update,
    ensures
        parse_body(t.type_code(), t.body()) == Some(t),
{
    let b = t.body();
    let f = t.fixed();
    let prefix = t->Update_prefix;
    lemma_subs_after_fixed(t);
    lemma_be16_of_bytes(t->Update_interval);
    lemma_be16_of_bytes(t->Update_seqno);
    lemma_be16_of_bytes(t->Update_metric);
    assert(f.len() == 10 + prefix.len());
    assert(b[0] == f[0] && b[1] == f[1] && b[2] == f[2] && b[3] == f[3] && b[4] == f[4] && b[5]
        == f[5] && b[6] == f[6] && b[7] == f[7] && b[8] == f[8] && b[9] == f[9]);
    assert(b.subrange(10, 10 + prefix.len() as int) =~= prefix);
}

proof fn lemma_body_roundtrip_route_request(t: TlvView)
    requires
        t.canonical(),
        t is RouteRequest,
    ensures
        parse_body(t.type_code(), t.body()) == Some(t),
{
    let b = t.body();
    let f = t.fixed();
    let prefix = t->RouteRequest_prefix;
    lemma_subs_after_fixed(t);
    assert(f.len() == 2 + prefix.len());
    assert(b[0] == f[0] && b[1] == f[1]);
    assert(b.subrange(2, 2 + prefix.len() as int) =~= prefix);
}

proof fn lemma_body_roundtrip_seqno_request(t: TlvView)
    requires
        t.canonical(),
        t is SeqnoRequest,
    ensures
        parse_body(t.type_code(), t.body()) == Some(t),
{
    let b = t.body();
    let f = t.fixed();
    let prefix = t->SeqnoRequest_prefix;
    let router_id = t->SeqnoRequest_router_id;
    lemma_subs_after_fixed(t);
    lemma_be16_of_bytes(t->SeqnoRequest_seqno);
    assert(f.len() == 14 + prefix.len());
    assert(b[0] == f[0] && b[1] == f[1] && b[2] == f[2] && b[3] == f[3] && b[4] == f[4]);
    assert(b.subrange(6, 14) =~= router_id@);
    assert(router_id_of(b.subrange(6, 14)) =~= router_id);
    assert(b.subrange(14, 14 + prefix.len() as int) =~= prefix);
}

proof fn lemma_body_roundtrip_unknown(t: TlvView)
    requires
        t.canonical(),
        t is Unknown,
    ensures
        parse_body(t.type_code(), t.body()) == Some(t),
{
    let b = t.body();
    let f = t.fixed();
    assert(wire_of_subs(t.subs()) =~= Seq::<u8>::empty());
    assert(b =~= t->Unknown_data);
}

/// The body of a canonical TLV, read as a body of its type, is that TLV.
pub proof fn lemma_body_roundtrip(t: TlvView)
    requires
        t.canonical(),
        !(t is Pad1),
    ensures
        parse_body(t.type_code(), t.body()) == Some(t),
{
    match t {
        TlvView::Pad1 => {},
        TlvView::PadN { .. } => lemma_body_roundtrip_pad_n(t),
        TlvView::AckRequest { .. } => lemma_body_roundtrip_ack_request(t),
        TlvView::Ack { .. } => lemma_body_roundtrip_ack(t),
        TlvView::Hello { .. } => lemma_body_roundtrip_hello(t),
        TlvView::Ihu { .. } => lemma_body_roundtrip_ihu(t),
        TlvView::RouterId { .. } => lemma_body_roundtrip_router_id(t),
        TlvView::NextHop { .. } => lemma_body_roundtrip_next_hop(t),
        TlvView::Update { .. } => lemma_body_roundtrip_update(t),
        TlvView::RouteRequest { .. } => lemma_body_roundtrip_route_request(t),
        TlvView::SeqnoRequest { .. } => lemma_body_roundtrip_seqno_request(t),
        TlvView::Unknown { .. } => lemma_body_roundtrip_unknown(t),
    }
}

/// A canonical TLV, written and read again, is the same TLV, whatever bytes
/// follow it; and the reader stops right behind it.
pub proof fn lemma_tlv_roundtrip(t: TlvView, rest: Seq<u8>)
    requires
        t.canonical(),
    ensures
        parse_one(t.wire() + rest) == (ParseStep::Done { tlv: t, used: t.wire().len() }),
{
    let s = t.wire() + rest;
    if t is Pad1 {
        assert(s[0] == 0);
    } else {
        lemma_body_roundtrip(t);
        let b = t.body();
        assert(s[0] == t.type_code());
        assert(s[1] == len_byte(b.len()));
        assert(s[1] == b.len());
        assert(s.subrange(2, 2 + b.len() as int) =~= b);
        assert(t.type_code() != 0);
    }
}

/// A list of canonical TLVs, written and read again, is the same list.
pub proof fn lemma_tlvs_roundtrip(tlvs: Seq<TlvView>)
    requires
        tlvs_canonical(tlvs),
    ensures
        parse_many(wire_of_tlvs(tlvs)) == Ok::<Seq<TlvView>, ParseFailure>(tlvs),
    decreases tlvs.len(),
{
    if tlvs.len() == 0 {
        assert(tlvs =~= Seq::<TlvView>::empty());
    } else {
        let head = tlvs[0];
        let tail = tlvs.drop_first();
        assert(tlvs_canonical(tail)) by {
            assert forall|i: int| 0 <= i < tail.len() implies (#[trigger] tail[i]).canonical() by {
                assert(tail[i] == tlvs[i + 1]);
            }
        }
        lemma_tlvs_roundtrip(tail);
        lemma_tlv_roundtrip(head, wire_of_tlvs(tail));
        let s = wire_of_tlvs(tlvs);
        assert(s.len() > 0);
        assert(s.skip(head.wire().len() as int) =~= wire_of_tlvs(tail));
        assert(seq![head] + tail =~= tlvs);
    }
}

/// A TLV of a type that the protocol does not define is kept as it came:
/// writing what was read gives the bytes that were read.
pub proof fn lemma_unknown_kept(s: Seq<u8>)
    requires
        parse_one(s) matches ParseStep::Done { tlv, .. } && tlv is Unknown,
    ensures
        parse_one(s) matches ParseStep::Done { tlv, used } && tlv.wire() == s.take(used as int),
{
    let tlv = parse_one(s)->Done_tlv;
    let used = parse_one(s)->Done_used;
    let b = s.subrange(2, 2 + s[1] as int);
    assert(wire_of_subs(tlv.subs()) =~= Seq::<u8>::empty());
    assert(tlv.body() =~= b);
    assert(tlv.wire() =~= s.take(used as int));
}

/// A packet of canonical TLVs whose body the header can count, written and
/// read again, has the same TLVs, whatever bytes follow it in the buffer.
pub proof fn lemma_packet_roundtrip(tlvs: Seq<TlvView>, trailing: Seq<u8>)
    requires
        tlvs_canonical(tlvs),
        wire_of_tlvs(tlvs).len() <= 65535,
    ensures
        framed_body(packet_wire(tlvs) + trailing) == Some(wire_of_tlvs(tlvs)),
        decoded(packet_wire(tlvs) + trailing) == Ok::<Seq<TlvView>, Seq<char>>(tlvs),
{
    let body = wire_of_tlvs(tlvs);
    let s = packet_wire(tlvs) + trailing;
    let n = (body.len() % 65536) as u16;
    lemma_be16_of_bytes(n);
    assert(header(body.len()).len() == 4);
    assert(s[0] == header(body.len())[0] && s[1] == header(body.len())[1]);
    assert(s[2] == hi_byte(n) && s[3] == lo_byte(n));
    assert(has_header(s));
    assert(s.subrange(4, 4 + body.len() as int) =~= body);
    lemma_tlvs_roundtrip(tlvs);
}

} // verus!
