//! Babel packets: a list of TLVs behind a four-octet header.

use crate::addr::IpAddr;
use crate::format::{parse_many, wire_of_tlvs, SubTlvView, TlvView};
use crate::tlv::{tlv_views, Tlv};
use crate::wire::{be16, be16_bytes, read_u16_be, u16_be_bytes};
use vstd::prelude::*;
use vstd::slice::slice_subrange;

verus! {

/// The UDP port of the protocol.
pub const BABEL_PORT: u16 = 6696;

/// The IPv4 multicast group of the protocol, 224.0.0.111.
pub const MULTICAST_V4_ADDR: [u8; 4] = [224, 0, 0, 111];

/// The IPv6 multicast group of the protocol, ff02::6.
pub const MULTICAST_V6_ADDR: [u8; 16] = [0xff, 0x02, 0, 0, 0, 0, 0, 0, 0, 0, 0, 0, 0, 0, 0, 0x06];

/// The first octet of every packet.
pub const BABEL_MAGIC: u8 = 42;

/// The protocol version, the second octet of every packet.
pub const BABEL_VERSION: u8 = 2;

/// The header of a packet whose body has `body_len` bytes: magic, version,
/// and the body length modulo 65536 in network order.
pub open spec fn header(body_len: nat) -> Seq<u8> {
    seq![BABEL_MAGIC, BABEL_VERSION] + be16_bytes((body_len % 65536) as u16)
}

/// The bytes a packet with these TLVs is written as.
pub open spec fn packet_wire(tlvs: Seq<TlvView>) -> Seq<u8> {
    header(wire_of_tlvs(tlvs).len()) + wire_of_tlvs(tlvs)
}

/// Whether `s` starts with the magic and version octets of a header.
pub open spec fn has_header(s: Seq<u8>) -> bool {
    s.len() >= 4 && s[0] == BABEL_MAGIC && s[1] == BABEL_VERSION
}

/// The bytes of `s` that hold TLVs. Behind a header they are as many as the
/// header counts, and what follows them is ignored; `None` where the header
/// counts more than there are. Without a header all of `s` holds TLVs.
pub open spec fn framed_body(s: Seq<u8>) -> Option<Seq<u8>> {
    if has_header(s) {
        let n = be16(s[2], s[3]) as int;
        if 4 + n > s.len() {
            None
        } else {
            Some(s.subrange(4, 4 + n))
        }
    } else {
        Some(s)
    }
}

/// The message for a header that counts more bytes than the buffer holds.
pub open spec fn body_overrun_text() -> Seq<char> {
    "Babel body length exceeds buffer"@
}

/// The TLVs that the buffer `s` is read as, or the message it is refused
/// with: a header that counts more bytes than there are, or a TLV in the
/// framed bytes that cannot be read, makes the whole buffer invalid.
pub open spec fn decoded(s: Seq<u8>) -> Result<Seq<TlvView>, Seq<char>> {
    match framed_body(s) {
        None => Err(body_overrun_text()),
        Some(body) => match parse_many(body) {
            Ok(tlvs) => Ok(tlvs),
            Err(why) => Err(why.text()),
        },
    }
}

/// Writing a list with one more TLV at its end appends that TLV's bytes.
pub proof fn lemma_wire_of_tlvs_push(tlvs: Seq<TlvView>, last: TlvView)
    ensures
        wire_of_tlvs(tlvs.push(last)) == wire_of_tlvs(tlvs) + last.wire(),
    decreases tlvs.len(),
{
    if tlvs.len() == 0 {
        assert(tlvs.push(last).drop_first() =~= Seq::<TlvView>::empty());
        assert(wire_of_tlvs(tlvs.push(last).drop_first()) =~= Seq::<u8>::empty());
        assert(wire_of_tlvs(tlvs.push(last)) =~= wire_of_tlvs(tlvs) + last.wire());
    } else {
        assert(tlvs.push(last).drop_first() =~= tlvs.drop_first().push(last));
        lemma_wire_of_tlvs_push(tlvs.drop_first(), last);
        assert(wire_of_tlvs(tlvs.push(last)) =~= wire_of_tlvs(tlvs) + last.wire());
    }
}

/// A Babel packet: the TLVs that one datagram carries, in order.
#[derive(Debug, PartialEq, Eq, Clone)]
pub struct Packet {
    tlvs: Vec<Tlv>,
}

impl View for Packet {
    type V = Seq<TlvView>;

    closed spec fn view(&self) -> Seq<TlvView> {
        tlv_views(self.tlvs@)
    }
}

impl Packet {
    /// A packet without TLVs.
    pub fn new() -> (r: Self)
        ensures
            r@ == Seq::<TlvView>::empty(),
    {
        let r = Packet { tlvs: Vec::new() };
        assert(r@ =~= Seq::<TlvView>::empty());
        r
    }

    /// A packet with the given TLVs.
    pub fn with_tlvs(tlvs: Vec<Tlv>) -> (r: Self)
        ensures
            r@ == tlv_views(tlvs@),
    {
        Packet { tlvs }
    }

    /// Appends a TLV.
    pub fn add_tlv(&mut self, tlv: Tlv)
        ensures
            final(self)@ == old(self)@.push(tlv@),
    {
        self.tlvs.push(tlv);
        assert(self@ =~= old(self)@.push(tlv@));
    }

    /// The TLVs of the packet.
    pub fn tlvs(&self) -> (r: &Vec<Tlv>)
        ensures
            tlv_views(r@) == self@,
    {
        &self.tlvs
    }

    /// The TLVs of the packet, taken out of it.
    pub fn into_tlvs(self) -> (r: Vec<Tlv>)
        ensures
            tlv_views(r@) == self@,
    {
        self.tlvs
    }

    /// The wire bytes of the TLVs, one after the other.
    fn body_bytes(&self) -> (body: Vec<u8>)
        ensures
            body@ == wire_of_tlvs(self@),
    {
        let mut body: Vec<u8> = Vec::new();
        let mut i: usize = 0;
        assert(self@.take(0) =~= Seq::<TlvView>::empty());
        while i < self.tlvs.len()
            invariant
                i <= self.tlvs@.len(),
                self@ == tlv_views(self.tlvs@),
                body@ == wire_of_tlvs(self@.take(i as int)),
            decreases self.tlvs@.len() - i,
        {
            let mut bytes = self.tlvs[i].to_bytes();
            let ghost before = body@;
            body.append(&mut bytes);
            proof {
                let done = self@.take(i as int);
                lemma_wire_of_tlvs_push(done, self.tlvs@[i as int]@);
                assert(done.push(self.tlvs@[i as int]@) =~= self@.take(i + 1));
            }
            i = i + 1;
        }
        assert(self@.take(i as int) =~= self@);
        body
    }

    /// The wire bytes of the packet: the header, then the TLVs. The header
    /// is always written, and carries the body length modulo 65536.
    pub fn to_bytes(&self) -> (buf: Vec<u8>)
        ensures
            buf@ == packet_wire(self@),
    {
        let mut body = self.body_bytes();
        let body_len: u16 = (body.len() % 65536) as u16;
        let len_bytes = u16_be_bytes(body_len);
        let mut buf: Vec<u8> = Vec::new();
        buf.push(BABEL_MAGIC);
        buf.push(BABEL_VERSION);
        buf.push(len_bytes[0]);
        buf.push(len_bytes[1]);
        assert(buf@ =~= header(body@.len()));
        buf.append(&mut body);
        buf
    }

    /// Reads a packet. Behind a header the TLVs are read from as many bytes
    /// as the header counts; without one, from the whole buffer.
    ///
    /// Fails with `"Babel body length exceeds buffer"` where the header
    /// counts more bytes than the buffer holds, and with the error of
    /// [`Tlv::parse_all`] where one of the TLVs cannot be read.
    pub fn from_bytes(buf: &[u8]) -> (r: Result<Self, String>)
        ensures
            match decoded(buf@) {
                Ok(tlvs) => r matches Ok(p) && p@ == tlvs,
                Err(text) => r matches Err(e) && e@ == text,
            },
    {
        let tlv_slice = if buf.len() >= 4 && buf[0] == BABEL_MAGIC && buf[1] == BABEL_VERSION {
            let body_len: usize = read_u16_be(slice_subrange(buf, 2, 4)) as usize;
            if body_len > buf.len() - 4 {
                return Err("Babel body length exceeds buffer".to_owned());
            }
            slice_subrange(buf, 4, 4 + body_len)
        } else {
            buf
        };
        match Tlv::parse_all(tlv_slice) {
            Ok(tlvs) => Ok(Packet { tlvs }),
            Err(e) => Err(e),
        }
    }

    /// The first octet of every packet.
    pub fn magic() -> (r: u8)
        ensures
            r == BABEL_MAGIC,
    {
        BABEL_MAGIC
    }

    /// The second octet of every packet.
    pub fn version() -> (r: u8)
        ensures
            r == BABEL_VERSION,
    {
        BABEL_VERSION
    }

    /// The body length that the header carries: the length of the written
    /// TLVs modulo 65536.
    pub fn body_len(&self) -> (r: u16)
        ensures
            r == wire_of_tlvs(self@).len() % 65536,
    {
        let body = self.body_bytes();
        (body.len() % 65536) as u16
    }

    /// A packet with one TLV.
    fn single(tlv: Tlv) -> (r: Self)
        ensures
            r@ == seq![tlv@],
    {
        let mut tlvs: Vec<Tlv> = Vec::new();
        tlvs.push(tlv);
        let r = Packet { tlvs };
        assert(r@ =~= seq![tlv@]);
        r
    }

    /// A packet with one Pad1.
    pub fn build_pad1() -> (r: Self)
        ensures
            r@ == seq![TlvView::Pad1],
    {
        Packet::single(Tlv::Pad1)
    }

    /// A packet with one PadN.
    pub fn build_padn(n: u8) -> (r: Self)
        ensures
            r@ == seq![TlvView::PadN { n }],
    {
        Packet::single(Tlv::PadN { n })
    }

    /// A packet with one AckRequest without sub-TLVs.
    pub fn build_ack_request(opaque: u16, interval: u16) -> (r: Self)
        ensures
            r@ == seq![TlvView::AckRequest { opaque, interval, sub_tlvs: Seq::empty() }],
    {
        let t = Tlv::AckRequest { opaque, interval, sub_tlvs: Vec::new() };
        assert(t@.subs() =~= Seq::<SubTlvView>::empty());
        Packet::single(t)
    }

    /// A packet with one Ack without sub-TLVs.
    pub fn build_ack(opaque: u16) -> (r: Self)
        ensures
            r@ == seq![TlvView::Ack { opaque, sub_tlvs: Seq::empty() }],
    {
        let t = Tlv::Ack { opaque, sub_tlvs: Vec::new() };
        assert(t@.subs() =~= Seq::<SubTlvView>::empty());
        Packet::single(t)
    }

    /// A packet with one Hello without sub-TLVs.
    pub fn build_hello(flags: u16, seqno: u16, interval: u16) -> (r: Self)
        ensures
            r@ == seq![TlvView::Hello { flags, seqno, interval, sub_tlvs: Seq::empty() }],
    {
        let t = Tlv::Hello { flags, seqno, interval, sub_tlvs: Vec::new() };
        assert(t@.subs() =~= Seq::<SubTlvView>::empty());
        Packet::single(t)
    }

    /// A packet with one IHU without sub-TLVs.
    pub fn build_ihu(ae: u8, rxcost: u16, interval: u16, addr: Option<IpAddr>) -> (r: Self)
        ensures
            r@ == seq![TlvView::Ihu { ae, rxcost, interval, addr, sub_tlvs: Seq::empty() }],
    {
        let t = Tlv::Ihu { ae, rxcost, interval, addr, sub_tlvs: Vec::new() };
        assert(t@.subs() =~= Seq::<SubTlvView>::empty());
        Packet::single(t)
    }

    /// A packet with one RouterId without sub-TLVs.
    pub fn build_router_id(router_id: [u8; 8]) -> (r: Self)
        ensures
            r@ == seq![TlvView::RouterId { router_id, sub_tlvs: Seq::empty() }],
    {
        let t = Tlv::RouterId { router_id, sub_tlvs: Vec::new() };
        assert(t@.subs() =~= Seq::<SubTlvView>::empty());
        Packet::single(t)
    }

    /// A packet with one NextHop without sub-TLVs.
    pub fn build_next_hop(ae: u8, addr: Option<IpAddr>) -> (r: Self)
        ensures
            r@ == seq![TlvView::NextHop { ae, addr, sub_tlvs: Seq::empty() }],
    {
        let t = Tlv::NextHop { ae, addr, sub_tlvs: Vec::new() };
        assert(t@.subs() =~= Seq::<SubTlvView>::empty());
        Packet::single(t)
    }

    /// A packet with one Update without sub-TLVs.
    pub fn build_update(
        ae: u8,
        flags: u8,
        plen: u8,
        omitted: u8,
        interval: u16,
        seqno: u16,
        metric: u16,
        prefix: Vec<u8>,
    ) -> (r: Self)
        ensures
            r@ == seq![
                TlvView::Update {
                    ae,
                    flags,
                    plen,
                    omitted,
                    interval,
                    seqno,
                    metric,
                    prefix: prefix@,
                    sub_tlvs: Seq::empty(),
                },
            ],
    {
        let t = Tlv::Update {
            ae,
            flags,
            plen,
            omitted,
            interval,
            seqno,
            metric,
            prefix,
            sub_tlvs: Vec::new(),
        };
        assert(t@.subs() =~= Seq::<SubTlvView>::empty());
        Packet::single(t)
    }

    /// A packet with one RouteRequest without sub-TLVs.
    pub fn build_route_request(ae: u8, plen: u8, prefix: Vec<u8>) -> (r: Self)
        ensures
            r@ == seq![TlvView::RouteRequest { ae, plen, prefix: prefix@, sub_tlvs: Seq::empty() }],
    {
        let t = Tlv::RouteRequest { ae, plen, prefix, sub_tlvs: Vec::new() };
        assert(t@.subs() =~= Seq::<SubTlvView>::empty());
        Packet::single(t)
    }

    /// A packet with one SeqnoRequest without sub-TLVs.
    pub fn build_seqno_request(
        ae: u8,
        plen: u8,
        seqno: u16,
        hop_count: u8,
        router_id: [u8; 8],
        prefix: Vec<u8>,
    ) -> (r: Self)
        ensures
            r@ == seq![
                TlvView::SeqnoRequest {
                    ae,
                    plen,
                    seqno,
                    hop_count,
                    router_id,
                    prefix: prefix@,
                    sub_tlvs: Seq::empty(),
                },
            ],
    {
        let t = Tlv::SeqnoRequest {
            ae,
            plen,
            seqno,
            hop_count,
            router_id,
            prefix,
            sub_tlvs: Vec::new(),
        };
        assert(t@.subs() =~= Seq::<SubTlvView>::empty());
        Packet::single(t)
    }
}

} // verus!
