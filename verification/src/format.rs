//! The Babel wire format, as mathematics.
//!
//! A TLV is modelled by [`TlvView`], a sub-TLV by [`SubTlvView`]. The
//! functions here say which bytes a value is written as, and which value a
//! run of bytes is read as. The executable codec is proved against them.

use crate::addr::IpAddr;
use crate::wire::{be16, be16_bytes};
use vstd::prelude::*;

verus! {

/// The mathematical value of a sub-TLV.
pub enum SubTlvView {
    Pad1,
    PadN { n: u8 },
    Unknown { stype: u8, data: Seq<u8> },
}

/// The mathematical value of a TLV.
#[allow(inconsistent_fields)]
pub enum TlvView {
    Pad1,
    PadN { n: u8 },
    AckRequest { opaque: u16, interval: u16, sub_tlvs: Seq<SubTlvView> },
    Ack { opaque: u16, sub_tlvs: Seq<SubTlvView> },
    Hello { flags: u16, seqno: u16, interval: u16, sub_tlvs: Seq<SubTlvView> },
    Ihu { ae: u8, rxcost: u16, interval: u16, addr: Option<IpAddr>, sub_tlvs: Seq<SubTlvView> },
    RouterId { router_id: [u8; 8], sub_tlvs: Seq<SubTlvView> },
    NextHop { ae: u8, addr: Option<IpAddr>, sub_tlvs: Seq<SubTlvView> },
    Update {
        ae: u8,
        flags: u8,
        plen: u8,
        omitted: u8,
        interval: u16,
        seqno: u16,
        metric: u16,
        prefix: Seq<u8>,
        sub_tlvs: Seq<SubTlvView>,
    },
    RouteRequest { ae: u8, plen: u8, prefix: Seq<u8>, sub_tlvs: Seq<SubTlvView> },
    SeqnoRequest {
        ae: u8,
        plen: u8,
        seqno: u16,
        hop_count: u8,
        router_id: [u8; 8],
        prefix: Seq<u8>,
        sub_tlvs: Seq<SubTlvView>,
    },
    Unknown { tlv_type: u8, data: Seq<u8> },
}

/// `n` zero bytes.
pub open spec fn zeros(n: nat) -> Seq<u8> {
    Seq::new(n, |i: int| 0u8)
}

/// The length octet written for a body of `n` bytes: `n` modulo 256.
pub open spec fn len_byte(n: nat) -> u8 {
    (n % 256) as u8
}

/// How many address octets follow an address-encoding octet.
pub open spec fn addr_len(ae: u8) -> nat {
    if ae == 1 {
        4
    } else if ae == 2 || ae == 3 {
        16
    } else {
        0
    }
}

/// The address that `octets` spell under the address encoding `ae`.
pub open spec fn addr_of(ae: u8, octets: Seq<u8>) -> Option<IpAddr> {
    if ae == 1 {
        Some(IpAddr::V4([octets[0], octets[1], octets[2], octets[3]]))
    } else if ae == 2 || ae == 3 {
        Some(
            IpAddr::V6(
                [
                    octets[0],
                    octets[1],
                    octets[2],
                    octets[3],
                    octets[4],
                    octets[5],
                    octets[6],
                    octets[7],
                    octets[8],
                    octets[9],
                    octets[10],
                    octets[11],
                    octets[12],
                    octets[13],
                    octets[14],
                    octets[15],
                ],
            ),
        )
    } else {
        None
    }
}

/// The router-id that eight octets spell.
pub open spec fn router_id_of(octets: Seq<u8>) -> [u8; 8] {
    [
        octets[0],
        octets[1],
        octets[2],
        octets[3],
        octets[4],
        octets[5],
        octets[6],
        octets[7],
    ]
}

/// The octets written for an optional address.
pub open spec fn addr_bytes(addr: Option<IpAddr>) -> Seq<u8> {
    match addr {
        Some(a) => a.octets(),
        None => Seq::empty(),
    }
}

/// Whether an address field is the one its address encoding calls for:
/// IPv4 for 1, IPv6 for 2 and 3, none otherwise.
pub open spec fn addr_fits(ae: u8, addr: Option<IpAddr>) -> bool {
    if ae == 1 {
        addr matches Some(IpAddr::V4(_))
    } else if ae == 2 || ae == 3 {
        addr matches Some(IpAddr::V6(_))
    } else {
        addr is None
    }
}

/// The number of octets that hold a prefix of `plen` bits.
pub open spec fn prefix_octets(plen: u8) -> nat {
    ((plen as nat) + 7) / 8
}

/// The number of prefix octets an Update carries: those of the prefix less
/// the omitted ones, and never less than none.
pub open spec fn update_prefix_octets(plen: u8, omitted: u8) -> nat {
    if prefix_octets(plen) >= omitted as nat {
        (prefix_octets(plen) - omitted as nat) as nat
    } else {
        0
    }
}

impl SubTlvView {
    /// The number of bytes the sub-TLV takes on the wire, header included.
    pub open spec fn wire_len(self) -> nat {
        match self {
            SubTlvView::Pad1 => 1,
            SubTlvView::PadN { n } => 2 + n as nat,
            SubTlvView::Unknown { data, .. } => 2 + data.len(),
        }
    }

    /// The bytes the sub-TLV is written as.
    pub open spec fn wire(self) -> Seq<u8> {
        match self {
            SubTlvView::Pad1 => seq![0u8],
            SubTlvView::PadN { n } => seq![1u8, n] + zeros(n as nat),
            SubTlvView::Unknown { stype, data } => seq![stype, len_byte(data.len())] + data,
        }
    }

    /// Whether reading the written bytes gives this sub-TLV back: an unknown
    /// one has a type of its own and a body that its length octet can count.
    pub open spec fn canonical(self) -> bool {
        match self {
            SubTlvView::Unknown { stype, data } => stype >= 2 && data.len() <= 255,
            _ => true,
        }
    }
}

/// The bytes a list of sub-TLVs is written as: one after the other.
pub open spec fn wire_of_subs(subs: Seq<SubTlvView>) -> Seq<u8>
    decreases subs.len(),
{
    if subs.len() == 0 {
        Seq::empty()
    } else {
        subs[0].wire() + wire_of_subs(subs.drop_first())
    }
}

/// The list of sub-TLVs that `s` is read as, or `None` where a length octet
/// is missing or counts more bytes than are left.
pub open spec fn parse_sub_tlvs(s: Seq<u8>) -> Option<Seq<SubTlvView>>
    decreases s.len(),
{
    if s.len() == 0 {
        Some(Seq::empty())
    } else if s[0] == 0 {
        match parse_sub_tlvs(s.skip(1)) {
            Some(rest) => Some(seq![SubTlvView::Pad1] + rest),
            None => None,
        }
    } else if s.len() < 2 || s.len() < 2 + s[1] as nat {
        None
    } else {
        let item = if s[0] == 1 {
            SubTlvView::PadN { n: s[1] }
        } else {
            SubTlvView::Unknown { stype: s[0], data: s.subrange(2, 2 + s[1] as int) }
        };
        match parse_sub_tlvs(s.skip(2 + s[1] as int)) {
            Some(rest) => Some(seq![item] + rest),
            None => None,
        }
    }
}

/// The sub-TLVs that follow the first `fixed` bytes of a TLV body, or `None`
/// where the body is shorter than that or the rest is malformed.
pub open spec fn subs_after(body: Seq<u8>, fixed: nat) -> Option<Seq<SubTlvView>> {
    if body.len() < fixed {
        None
    } else {
        parse_sub_tlvs(body.skip(fixed as int))
    }
}

impl TlvView {
    /// The type octet.
    pub open spec fn type_code(self) -> u8 {
        match self {
            TlvView::Pad1 => 0,
            TlvView::PadN { .. } => 1,
            TlvView::AckRequest { .. } => 2,
            TlvView::Ack { .. } => 3,
            TlvView::Hello { .. } => 4,
            TlvView::Ihu { .. } => 5,
            TlvView::RouterId { .. } => 6,
            TlvView::NextHop { .. } => 7,
            TlvView::Update { .. } => 8,
            TlvView::RouteRequest { .. } => 9,
            TlvView::SeqnoRequest { .. } => 10,
            TlvView::Unknown { tlv_type, .. } => tlv_type,
        }
    }

    /// The sub-TLVs the TLV carries.
    pub open spec fn subs(self) -> Seq<SubTlvView> {
        match self {
            TlvView::AckRequest { sub_tlvs, .. } => sub_tlvs,
            TlvView::Ack { sub_tlvs, .. } => sub_tlvs,
            TlvView::Hello { sub_tlvs, .. } => sub_tlvs,
            TlvView::Ihu { sub_tlvs, .. } => sub_tlvs,
            TlvView::RouterId { sub_tlvs, .. } => sub_tlvs,
            TlvView::NextHop { sub_tlvs, .. } => sub_tlvs,
            TlvView::Update { sub_tlvs, .. } => sub_tlvs,
            TlvView::RouteRequest { sub_tlvs, .. } => sub_tlvs,
            TlvView::SeqnoRequest { sub_tlvs, .. } => sub_tlvs,
            _ => Seq::empty(),
        }
    }

    /// The part of the body that comes before the sub-TLVs. Reserved octets
    /// are zero.
    pub open spec fn fixed(self) -> Seq<u8> {
        match self {
            TlvView::Pad1 => Seq::empty(),
            TlvView::PadN { n } => zeros(n as nat),
            TlvView::AckRequest { opaque, interval, .. } => seq![0u8, 0u8] + be16_bytes(opaque)
                + be16_bytes(interval),
            TlvView::Ack { opaque, .. } => be16_bytes(opaque),
            TlvView::Hello { flags, seqno, interval, .. } => be16_bytes(flags) + be16_bytes(seqno)
                + be16_bytes(interval),
            TlvView::Ihu { ae, rxcost, interval, addr, .. } => seq![ae, 0u8] + be16_bytes(rxcost)
                + be16_bytes(interval) + addr_bytes(addr),
            TlvView::RouterId { router_id, .. } => seq![0u8, 0u8] + router_id@,
            TlvView::NextHop { ae, addr, .. } => seq![ae, 0u8] + addr_bytes(addr),
            TlvView::Update { ae, flags, plen, omitted, interval, seqno, metric, prefix, .. } => 
                seq![ae, flags, plen, omitted] + be16_bytes(interval) + be16_bytes(seqno)
                    + be16_bytes(metric) + prefix,
            TlvView::RouteRequest { ae, plen, prefix, .. } => seq![ae, plen] + prefix,
            TlvView::SeqnoRequest { ae, plen, seqno, hop_count, router_id, prefix, .. } => 
                seq![ae, plen] + be16_bytes(seqno) + seq![hop_count, 0u8] + router_id@ + prefix,
            TlvView::Unknown { data, .. } => data,
        }
    }

    /// The body: the fixed part, then the sub-TLVs.
    pub open spec fn body(self) -> Seq<u8> {
        self.fixed() + wire_of_subs(self.subs())
    }

    /// The bytes the TLV is written as. Pad1 is a single zero octet; every
    /// other TLV is its type, the length of its body modulo 256, and its body.
    pub open spec fn wire(self) -> Seq<u8> {
        if self is Pad1 {
            seq![0u8]
        } else {
            seq![self.type_code(), len_byte(self.body().len())] + self.body()
        }
    }

    /// Whether reading the written bytes gives this TLV back: the length
    /// octet can count the body, an address is the one its encoding calls
    /// for, a prefix has the octets its length calls for, an unknown TLV has
    /// a type of its own, and every sub-TLV is canonical.
    pub open spec fn canonical(self) -> bool {
        &&& self.body().len() <= 255
        &&& forall|i: int| 0 <= i < self.subs().len() ==> (#[trigger] self.subs()[i]).canonical()
        &&& match self {
            TlvView::Ihu { ae, addr, .. } => addr_fits(ae, addr),
            TlvView::NextHop { ae, addr, .. } => addr_fits(ae, addr),
            TlvView::Update { plen, omitted, prefix, .. } => prefix.len() == update_prefix_octets(
                plen,
                omitted,
            ),
            TlvView::RouteRequest { plen, prefix, .. } => prefix.len() == prefix_octets(plen),
            TlvView::SeqnoRequest { plen, prefix, .. } => prefix.len() == prefix_octets(plen),
            TlvView::Unknown { tlv_type, .. } => tlv_type > 10,
            _ => true,
        }
    }
}

/// The TLV that a body of type `t` is read as, or `None` where the body is
/// too short for its fields or its sub-TLVs are malformed. Reserved octets
/// are skipped; a type above 10 is kept as it is.
pub open spec fn parse_body(t: u8, b: Seq<u8>) -> Option<TlvView> {
    if t == 1 {
        Some(TlvView::PadN { n: len_byte(b.len()) })
    } else if t == 2 {
        match subs_after(b, 6) {
            Some(subs) => Some(
                TlvView::AckRequest {
                    opaque: be16(b[2], b[3]),
                    interval: be16(b[4], b[5]),
                    sub_tlvs: subs,
                },
            ),
            None => None,
        }
    } else if t == 3 {
        match subs_after(b, 2) {
            Some(subs) => Some(TlvView::Ack { opaque: be16(b[0], b[1]), sub_tlvs: subs }),
            None => None,
        }
    } else if t == 4 {
        match subs_after(b, 6) {
            Some(subs) => Some(
                TlvView::Hello {
                    flags: be16(b[0], b[1]),
                    seqno: be16(b[2], b[3]),
                    interval: be16(b[4], b[5]),
                    sub_tlvs: subs,
                },
            ),
            None => None,
        }
    } else if t == 5 {
        if b.len() < 6 {
            None
        } else {
            let end = 6 + addr_len(b[0]);
            match subs_after(b, end) {
                Some(subs) => Some(
                    TlvView::Ihu {
                        ae: b[0],
                        rxcost: be16(b[2], b[3]),
                        interval: be16(b[4], b[5]),
                        addr: addr_of(b[0], b.subrange(6, end as int)),
                        sub_tlvs: subs,
                    },
                ),
                None => None,
            }
        }
    } else if t == 6 {
        match subs_after(b, 10) {
            Some(subs) => Some(
                TlvView::RouterId { router_id: router_id_of(b.subrange(2, 10)), sub_tlvs: subs },
            ),
            None => None,
        }
    } else if t == 7 {
        if b.len() < 2 {
            None
        } else {
            let end = 2 + addr_len(b[0]);
            match subs_after(b, end) {
                Some(subs) => Some(
                    TlvView::NextHop {
                        ae: b[0],
                        addr: addr_of(b[0], b.subrange(2, end as int)),
                        sub_tlvs: subs,
                    },
                ),
                None => None,
            }
        }
    } else if t == 8 {
        if b.len() < 10 {
            None
        } else {
            let end = 10 + update_prefix_octets(b[2], b[3]);
            match subs_after(b, end) {
                Some(subs) => Some(
                    TlvView::Update {
                        ae: b[0],
                        flags: b[1],
                        plen: b[2],
                        omitted: b[3],
                        interval: be16(b[4], b[5]),
                        seqno: be16(b[6], b[7]),
                        metric: be16(b[8], b[9]),
                        prefix: b.subrange(10, end as int),
                        sub_tlvs: subs,
                    },
                ),
                None => None,
            }
        }
    } else if t == 9 {
        if b.len() < 2 {
            None
        } else {
            let end = 2 + prefix_octets(b[1]);
            match subs_after(b, end) {
                Some(subs) => Some(
                    TlvView::RouteRequest {
                        ae: b[0],
                        plen: b[1],
                        prefix: b.subrange(2, end as int),
                        sub_tlvs: subs,
                    },
                ),
                None => None,
            }
        }
    } else if t == 10 {
        if b.len() < 14 {
            None
        } else {
            let end = 14 + prefix_octets(b[1]);
            match subs_after(b, end) {
                Some(subs) => Some(
                    TlvView::SeqnoRequest {
                        ae: b[0],
                        plen: b[1],
                        seqno: be16(b[2], b[3]),
                        hop_count: b[4],
                        router_id: router_id_of(b.subrange(6, 14)),
                        prefix: b.subrange(14, end as int),
                        sub_tlvs: subs,
                    },
                ),
                None => None,
            }
        }
    } else {
        Some(TlvView::Unknown { tlv_type: t, data: b })
    }
}

/// Why reading a TLV failed.
pub enum ParseFailure {
    /// Nothing is left to read.
    Eof,
    /// A field ends beyond the bytes that hold it.
    Truncated,
    /// The length octet counts more bytes than the buffer has left.
    LengthExceedsBuffer,
}

impl ParseFailure {
    /// The message a failure is reported with.
    pub open spec fn text(self) -> Seq<char> {
        match self {
            ParseFailure::Eof => "EOF"@,
            ParseFailure::Truncated => "failed to fill whole buffer"@,
            ParseFailure::LengthExceedsBuffer => "Length exceeds buffer"@,
        }
    }
}

/// What reading one TLV comes to: the TLV or the failure, and the number of
/// bytes the reader has moved past either way.
pub enum ParseStep {
    Done { tlv: TlvView, used: nat },
    Failed { why: ParseFailure, used: nat },
}

/// Reads one TLV from the start of `s`.
pub open spec fn parse_one(s: Seq<u8>) -> ParseStep {
    if s.len() == 0 {
        ParseStep::Failed { why: ParseFailure::Eof, used: 0 }
    } else if s[0] == 0 {
        ParseStep::Done { tlv: TlvView::Pad1, used: 1 }
    } else if s.len() < 2 {
        ParseStep::Failed { why: ParseFailure::Truncated, used: 1 }
    } else if s.len() < 2 + s[1] as nat {
        ParseStep::Failed { why: ParseFailure::LengthExceedsBuffer, used: 2 }
    } else {
        let end = 2 + s[1] as nat;
        match parse_body(s[0], s.subrange(2, end as int)) {
            Some(tlv) => ParseStep::Done { tlv, used: end },
            None => ParseStep::Failed { why: ParseFailure::Truncated, used: end },
        }
    }
}

/// Reads every TLV of `s`, one after the other. The end of `s` ends the
/// list. A TLV that cannot be read makes the whole reading fail, with the
/// failure of that TLV.
pub open spec fn parse_many(s: Seq<u8>) -> Result<Seq<TlvView>, ParseFailure>
    decreases s.len(),
{
    if s.len() == 0 {
        Ok(Seq::empty())
    } else {
        match parse_one(s) {
            ParseStep::Done { tlv, used } => match parse_many(s.skip(used as int)) {
                Ok(rest) => Ok(seq![tlv] + rest),
                Err(why) => Err(why),
            },
            ParseStep::Failed { why, .. } => Err(why),
        }
    }
}

/// The bytes a list of TLVs is written as: one after the other.
pub open spec fn wire_of_tlvs(tlvs: Seq<TlvView>) -> Seq<u8>
    decreases tlvs.len(),
{
    if tlvs.len() == 0 {
        Seq::empty()
    } else {
        tlvs[0].wire() + wire_of_tlvs(tlvs.drop_first())
    }
}

} // verus!
