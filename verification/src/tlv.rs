//! Babel TLVs and sub-TLVs (RFC 8966 §4.3 and §4.7): the values, and the
//! codec between them and wire bytes.

use crate::addr::IpAddr;
use crate::format::{
    addr_bytes, addr_len, addr_of, parse_body, parse_many, parse_one, parse_sub_tlvs,
    prefix_octets, router_id_of, subs_after, wire_of_subs, zeros, ParseFailure, ParseStep,
    SubTlvView, TlvView,
};
use crate::wire::{be16, be16_bytes, read_u16_be, u16_be_bytes};
use vstd::prelude::*;
use vstd::slice::{slice_subrange, slice_to_vec};

verus! {

/// A sub-TLV inside certain TLVs.
#[derive(Debug, PartialEq, Eq, Clone)]
pub enum SubTlv {
    /// Pad1 (type 0): one octet of padding.
    Pad1,
    /// PadN (type 1): `n` octets of padding after the header.
    PadN { n: u8 },
    /// Any other sub-TLV: its type and its body.
    Unknown { stype: u8, data: Vec<u8> },
}

/// A Babel TLV. A type that the protocol does not define is kept in
/// `Unknown`, so that it can be passed on as it came.
#[derive(Debug, PartialEq, Eq, Clone)]
#[allow(inconsistent_fields)]
pub enum Tlv {
    /// Pad1 (type 0): one octet of padding.
    Pad1,
    /// PadN (type 1): `n` octets of padding after the header.
    PadN { n: u8 },
    /// AckRequest (type 2): reserved(2), opaque(2), interval(2), sub-TLVs.
    AckRequest { opaque: u16, interval: u16, sub_tlvs: Vec<SubTlv> },
    /// Ack (type 3): opaque(2), sub-TLVs.
    Ack { opaque: u16, sub_tlvs: Vec<SubTlv> },
    /// Hello (type 4): flags(2), seqno(2), interval(2), sub-TLVs.
    Hello { flags: u16, seqno: u16, interval: u16, sub_tlvs: Vec<SubTlv> },
    /// IHU (type 5): AE(1), reserved(1), rxcost(2), interval(2), address, sub-TLVs.
    Ihu { ae: u8, rxcost: u16, interval: u16, addr: Option<IpAddr>, sub_tlvs: Vec<SubTlv> },
    /// RouterId (type 6): reserved(2), router-id(8), sub-TLVs.
    RouterId { router_id: [u8; 8], sub_tlvs: Vec<SubTlv> },
    /// NextHop (type 7): AE(1), reserved(1), address, sub-TLVs.
    NextHop { ae: u8, addr: Option<IpAddr>, sub_tlvs: Vec<SubTlv> },
    /// Update (type 8): AE, flags, plen, omitted, interval(2), seqno(2),
    /// metric(2), prefix, sub-TLVs.
    Update {
        ae: u8,
        flags: u8,
        plen: u8,
        omitted: u8,
        interval: u16,
        seqno: u16,
        metric: u16,
        prefix: Vec<u8>,
        sub_tlvs: Vec<SubTlv>,
    },
    /// RouteRequest (type 9): AE, plen, prefix, sub-TLVs.
    RouteRequest { ae: u8, plen: u8, prefix: Vec<u8>, sub_tlvs: Vec<SubTlv> },
    /// SeqnoRequest (type 10): AE, plen, seqno(2), hop count, reserved(1),
    /// router-id(8), prefix, sub-TLVs.
    SeqnoRequest {
        ae: u8,
        plen: u8,
        seqno: u16,
        hop_count: u8,
        router_id: [u8; 8],
        prefix: Vec<u8>,
        sub_tlvs: Vec<SubTlv>,
    },
    /// Any other TLV: its type octet and its body.
    Unknown { tlv_type: u8, data: Vec<u8> },
}

impl View for SubTlv {
    type V = SubTlvView;

    open spec fn view(&self) -> SubTlvView {
        match *self {
            SubTlv::Pad1 => SubTlvView::Pad1,
            SubTlv::PadN { n } => SubTlvView::PadN { n },
            SubTlv::Unknown { stype, data } => SubTlvView::Unknown { stype, data: data@ },
        }
    }
}

/// The values of a list of sub-TLVs.
pub open spec fn sub_views(subs: Seq<SubTlv>) -> Seq<SubTlvView> {
    Seq::new(subs.len(), |i: int| subs[i]@)
}

impl View for Tlv {
    type V = TlvView;

    open spec fn view(&self) -> TlvView {
        match *self {
            Tlv::Pad1 => TlvView::Pad1,
            Tlv::PadN { n } => TlvView::PadN { n },
            Tlv::AckRequest { opaque, interval, sub_tlvs } => TlvView::AckRequest {
                opaque,
                interval,
                sub_tlvs: sub_views(sub_tlvs@),
            },
            Tlv::Ack { opaque, sub_tlvs } => TlvView::Ack { opaque, sub_tlvs: sub_views(sub_tlvs@) },
            Tlv::Hello { flags, seqno, interval, sub_tlvs } => TlvView::Hello {
                flags,
                seqno,
                interval,
                sub_tlvs: sub_views(sub_tlvs@),
            },
            Tlv::Ihu { ae, rxcost, interval, addr, sub_tlvs } => TlvView::Ihu {
                ae,
                rxcost,
                interval,
                addr,
                sub_tlvs: sub_views(sub_tlvs@),
            },
            Tlv::RouterId { router_id, sub_tlvs } => TlvView::RouterId {
                router_id,
                sub_tlvs: sub_views(sub_tlvs@),
            },
            Tlv::NextHop { ae, addr, sub_tlvs } => TlvView::NextHop {
                ae,
                addr,
                sub_tlvs: sub_views(sub_tlvs@),
            },
            Tlv::Update {
                ae,
                flags,
                plen,
                omitted,
                interval,
                seqno,
                metric,
                prefix,
                sub_tlvs,
            } => TlvView::Update {
                ae,
                flags,
                plen,
                omitted,
                interval,
                seqno,
                metric,
                prefix: prefix@,
                sub_tlvs: sub_views(sub_tlvs@),
            },
            Tlv::RouteRequest { ae, plen, prefix, sub_tlvs } => TlvView::RouteRequest {
                ae,
                plen,
                prefix: prefix@,
                sub_tlvs: sub_views(sub_tlvs@),
            },
            Tlv::SeqnoRequest {
                ae,
                plen,
                seqno,
                hop_count,
                router_id,
                prefix,
                sub_tlvs,
            } => TlvView::SeqnoRequest {
                ae,
                plen,
                seqno,
                hop_count,
                router_id,
                prefix: prefix@,
                sub_tlvs: sub_views(sub_tlvs@),
            },
            Tlv::Unknown { tlv_type, data } => TlvView::Unknown { tlv_type, data: data@ },
        }
    }
}

/// The values of a list of TLVs.
pub open spec fn tlv_views(tlvs: Seq<Tlv>) -> Seq<TlvView> {
    Seq::new(tlvs.len(), |i: int| tlvs[i]@)
}

/// Writing a list with one more sub-TLV at its end appends that sub-TLV's bytes.
pub proof fn lemma_wire_of_subs_push(subs: Seq<SubTlvView>, last: SubTlvView)
    ensures
        wire_of_subs(subs.push(last)) == wire_of_subs(subs) + last.wire(),
    decreases subs.len(),
{
    if subs.len() == 0 {
        assert(subs.push(last).drop_first() =~= Seq::<SubTlvView>::empty());
        assert(wire_of_subs(subs.push(last).drop_first()) =~= Seq::<u8>::empty());
        assert(wire_of_subs(subs.push(last)) =~= wire_of_subs(subs) + last.wire());
    } else {
        assert(subs.push(last).drop_first() =~= subs.drop_first().push(last));
        lemma_wire_of_subs_push(subs.drop_first(), last);
        assert(wire_of_subs(subs.push(last)) =~= wire_of_subs(subs) + last.wire());
    }
}

/// A TLV that was read took at least one byte and no more than there were.
pub proof fn lemma_parse_one_used(s: Seq<u8>)
    ensures
        parse_one(s) matches ParseStep::Done { used, .. } ==> 0 < used <= s.len(),
{
}

/// Appends the two big-endian bytes of `n`.
fn push_u16(buf: &mut Vec<u8>, n: u16)
    ensures
        final(buf)@ == old(buf)@ + be16_bytes(n),
{
    let b = u16_be_bytes(n);
    buf.push(b[0]);
    buf.push(b[1]);
    assert(buf@ =~= old(buf)@ + be16_bytes(n));
}

/// Appends `n` zero bytes.
fn push_zeros(buf: &mut Vec<u8>, n: u8)
    ensures
        final(buf)@ == old(buf)@ + zeros(n as nat),
{
    let mut i: u8 = 0;
    while i < n
        invariant
            i <= n,
            buf@ == old(buf)@ + zeros(i as nat),
        decreases n - i,
    {
        buf.push(0);
        i = i + 1;
        assert(buf@ =~= old(buf)@ + zeros(i as nat));
    }
}

/// Appends a copy of `bytes`.
fn push_bytes(buf: &mut Vec<u8>, bytes: &[u8])
    ensures
        final(buf)@ == old(buf)@ + bytes@,
{
    let mut i: usize = 0;
    while i < bytes.len()
        invariant
            i <= bytes@.len(),
            buf@ == old(buf)@ + bytes@.take(i as int),
        decreases bytes@.len() - i,
    {
        buf.push(bytes[i]);
        i = i + 1;
        assert(buf@ =~= old(buf)@ + bytes@.take(i as int));
    }
    assert(bytes@.take(i as int) =~= bytes@);
}

/// Appends the octets of an optional address.
fn push_addr(buf: &mut Vec<u8>, addr: &Option<IpAddr>)
    ensures
        final(buf)@ == old(buf)@ + addr_bytes(*addr),
{
    match addr {
        Some(IpAddr::V4(a)) => push_bytes(buf, a.as_slice()),
        Some(IpAddr::V6(a)) => push_bytes(buf, a.as_slice()),
        None => {
            assert(buf@ =~= old(buf)@ + addr_bytes(*addr));
        },
    }
}

/// Appends the wire bytes of each sub-TLV in turn.
fn push_sub_tlvs(buf: &mut Vec<u8>, subs: &Vec<SubTlv>)
    ensures
        final(buf)@ == old(buf)@ + wire_of_subs(sub_views(subs@)),
{
    let mut i: usize = 0;
    assert(sub_views(subs@).take(0) =~= Seq::<SubTlvView>::empty());
    assert(buf@ =~= old(buf)@ + wire_of_subs(sub_views(subs@).take(0)));
    while i < subs.len()
        invariant
            i <= subs@.len(),
            buf@ == old(buf)@ + wire_of_subs(sub_views(subs@).take(i as int)),
        decreases subs@.len() - i,
    {
        let bytes = subs[i].to_bytes();
        let ghost before = buf@;
        push_bytes(buf, bytes.as_slice());
        proof {
            let done = sub_views(subs@).take(i as int);
            lemma_wire_of_subs_push(done, subs@[i as int]@);
            assert(done.push(subs@[i as int]@) =~= sub_views(subs@).take(i + 1));
            assert(buf@ =~= old(buf)@ + wire_of_subs(sub_views(subs@).take(i + 1)));
        }
        i = i + 1;
    }
    assert(sub_views(subs@).take(i as int) =~= sub_views(subs@));
}


/// A read position in a borrowed byte buffer.
pub struct Cursor<'a> {
    buf: &'a [u8],
    pos: usize,
}

impl<'a> Cursor<'a> {
    /// The bytes of the buffer.
    pub closed spec fn bytes(&self) -> Seq<u8> {
        self.buf@
    }

    /// The read position, counted from the start of the buffer.
    pub closed spec fn spec_position(&self) -> usize {
        self.pos
    }

    /// The bytes from the read position on; none where the position is
    /// beyond the end.
    pub open spec fn remaining(&self) -> Seq<u8> {
        if self.spec_position() <= self.bytes().len() {
            self.bytes().skip(self.spec_position() as int)
        } else {
            Seq::empty()
        }
    }

    /// A cursor at the start of `buf`.
    pub fn new(buf: &'a [u8]) -> (r: Self)
        ensures
            r.bytes() == buf@,
            r.spec_position() == 0,
    {
        Cursor { buf, pos: 0 }
    }

    /// The read position.
    #[verifier::when_used_as_spec(spec_position)]
    pub fn position(&self) -> (r: usize)
        ensures
            r == self.spec_position(),
    {
        self.pos
    }

    /// Moves the read position; it may lie beyond the end.
    pub fn set_position(&mut self, pos: usize)
        ensures
            final(self).bytes() == old(self).bytes(),
            final(self).spec_position() == pos,
    {
        self.pos = pos;
    }

    /// The whole buffer.
    pub fn get_ref(&self) -> (r: &'a [u8])
        ensures
            r@ == self.bytes(),
    {
        self.buf
    }
}

/// The message for a field that ends beyond the bytes that hold it.
fn truncated() -> (r: String)
    ensures
        r@ == ParseFailure::Truncated.text(),
{
    "failed to fill whole buffer".to_owned()
}

/// The big-endian 16-bit integer at offset `at`.
fn u16_at(p: &[u8], at: usize) -> (r: u16)
    requires
        at + 2 <= p.len(),
    ensures
        r == be16(p@[at as int], p@[at + 1]),
{
    read_u16_be(slice_subrange(p, at, at + 2))
}

/// A copy of the `n` bytes at offset `at`.
fn bytes_at(p: &[u8], at: usize, n: usize) -> (r: Vec<u8>)
    requires
        at + n <= p.len(),
    ensures
        r@ == p@.subrange(at as int, at + n),
{
    slice_to_vec(slice_subrange(p, at, at + n))
}

/// The eight octets at offset `at`, as a router-id.
fn router_id_at(p: &[u8], at: usize) -> (r: [u8; 8])
    requires
        at + 8 <= p.len(),
    ensures
        r == router_id_of(p@.subrange(at as int, at + 8)),
{
    let r = [
        p[at],
        p[at + 1],
        p[at + 2],
        p[at + 3],
        p[at + 4],
        p[at + 5],
        p[at + 6],
        p[at + 7],
    ];
    assert(r =~= router_id_of(p@.subrange(at as int, at + 8)));
    r
}

/// The number of address octets that the address encoding `ae` calls for.
fn addr_octets(ae: u8) -> (r: usize)
    ensures
        r == addr_len(ae),
{
    if ae == 1 {
        4
    } else if ae == 2 || ae == 3 {
        16
    } else {
        0
    }
}

/// The address at offset `at` under the address encoding `ae`.
fn addr_at(ae: u8, p: &[u8], at: usize) -> (r: Option<IpAddr>)
    requires
        at + addr_len(ae) <= p.len(),
    ensures
        r == addr_of(ae, p@.subrange(at as int, at + addr_len(ae))),
{
    if ae == 1 {
        let a = [p[at], p[at + 1], p[at + 2], p[at + 3]];
        let ghost want = addr_of(ae, p@.subrange(at as int, at + 4));
        assert(want matches Some(IpAddr::V4(w)) && a =~= w);
        Some(IpAddr::V4(a))
    } else if ae == 2 || ae == 3 {
        let a = [
            p[at],
            p[at + 1],
            p[at + 2],
            p[at + 3],
            p[at + 4],
            p[at + 5],
            p[at + 6],
            p[at + 7],
            p[at + 8],
            p[at + 9],
            p[at + 10],
            p[at + 11],
            p[at + 12],
            p[at + 13],
            p[at + 14],
            p[at + 15],
        ];
        let ghost want = addr_of(ae, p@.subrange(at as int, at + 16));
        assert(want matches Some(IpAddr::V6(w)) && a =~= w);
        Some(IpAddr::V6(a))
    } else {
        None
    }
}

/// The number of octets that hold a prefix of `plen` bits.
fn prefix_len(plen: u8) -> (r: usize)
    ensures
        r == prefix_octets(plen),
{
    let bits: usize = plen as usize;
    (bits + 7) / 8
}

/// The list that comes of putting `front` before what `rest` holds, if it
/// holds anything.
pub open spec fn prepend(front: Seq<SubTlvView>, rest: Option<Seq<SubTlvView>>) -> Option<
    Seq<SubTlvView>,
> {
    match rest {
        Some(r) => Some(front + r),
        None => None,
    }
}

/// What reading comes to when `front` was read and the rest came to `rest`:
/// the two lists in a row, or the failure of the rest.
pub open spec fn joined(front: Seq<TlvView>, rest: Result<Seq<TlvView>, ParseFailure>) -> Result<
    Seq<TlvView>,
    ParseFailure,
> {
    match rest {
        Ok(more) => Ok(front + more),
        Err(why) => Err(why),
    }
}

/// The sub-TLVs that follow the first `fixed` bytes of a TLV body.
fn subs_from(p: &[u8], fixed: usize) -> (r: Result<Vec<SubTlv>, String>)
    ensures
        match subs_after(p@, fixed as nat) {
            Some(l) => r matches Ok(v) && sub_views(v@) == l,
            None => r matches Err(e) && e@ == ParseFailure::Truncated.text(),
        },
{
    if p.len() < fixed {
        Err(truncated())
    } else {
        assert(p@.subrange(fixed as int, p@.len() as int) =~= p@.skip(fixed as int));
        SubTlv::parse_list(slice_subrange(p, fixed, p.len()))
    }
}

impl SubTlv {
    /// The number of bytes the sub-TLV takes on the wire, header included.
    pub fn len(&self) -> (r: usize)
        requires
            self@.wire_len() <= usize::MAX,
        ensures
            r == self@.wire_len(),
    {
        match self {
            SubTlv::Pad1 => 1,
            SubTlv::PadN { n } => {
                let k: usize = *n as usize;
                2 + k
            },
            SubTlv::Unknown { data, .. } => 2 + data.len(),
        }
    }

    /// Reads a list of sub-TLVs from `buf`, up to its end. A zero type is
    /// Pad1, one octet long; any other type is followed by a length octet and
    /// that many bytes of body. Fails where a length octet is missing or
    /// counts more bytes than are left.
    pub fn parse_list(buf: &[u8]) -> (r: Result<Vec<SubTlv>, String>)
        ensures
            match parse_sub_tlvs(buf@) {
                Some(l) => r matches Ok(v) && sub_views(v@) == l,
                None => r matches Err(e) && e@ == ParseFailure::Truncated.text(),
            },
    {
        let mut out: Vec<SubTlv> = Vec::new();
        let mut pos: usize = 0;
        assert(buf@.skip(0) =~= buf@);
        assert(sub_views(out@) =~= Seq::<SubTlvView>::empty());
        assert(parse_sub_tlvs(buf@) == prepend(sub_views(out@), parse_sub_tlvs(buf@))) by {
            if let Some(l) = parse_sub_tlvs(buf@) {
                assert(sub_views(out@) + l =~= l);
            }
        }
        while pos < buf.len()
            invariant
                pos <= buf@.len(),
                parse_sub_tlvs(buf@) == prepend(
                    sub_views(out@),
                    parse_sub_tlvs(buf@.skip(pos as int)),
                ),
            decreases buf@.len() - pos,
        {
            let ghost s = buf@.skip(pos as int);
            let ghost front = sub_views(out@);
            let stype = buf[pos];
            if stype == 0 {
                out.push(SubTlv::Pad1);
                pos = pos + 1;
                proof {
                    assert(s.skip(1) =~= buf@.skip(pos as int));
                    assert(sub_views(out@) =~= front.push(SubTlvView::Pad1));
                    if let Some(rest) = parse_sub_tlvs(buf@.skip(pos as int)) {
                        assert(front + (seq![SubTlvView::Pad1] + rest) =~= front.push(
                            SubTlvView::Pad1,
                        ) + rest);
                    }
                }
            } else {
                if buf.len() - pos < 2 {
                    return Err(truncated());
                }
                let slen: usize = buf[pos + 1] as usize;
                if buf.len() - pos - 2 < slen {
                    return Err(truncated());
                }
                let data = bytes_at(buf, pos + 2, slen);
                let item = if stype == 1 {
                    SubTlv::PadN { n: buf[pos + 1] }
                } else {
                    SubTlv::Unknown { stype, data }
                };
                out.push(item);
                proof {
                    assert(s.subrange(2, 2 + slen) =~= buf@.subrange(pos + 2, pos + 2 + slen));
                    assert(s.skip(2 + slen) =~= buf@.skip(pos + 2 + slen));
                    assert(sub_views(out@) =~= front.push(item@));
                    if let Some(rest) = parse_sub_tlvs(buf@.skip(pos + 2 + slen)) {
                        assert(front + (seq![item@] + rest) =~= front.push(item@) + rest);
                    }
                }
                pos = pos + 2 + slen;
            }
        }
        assert(buf@.skip(pos as int) =~= Seq::<u8>::empty());
        assert(sub_views(out@) + Seq::<SubTlvView>::empty() =~= sub_views(out@));
        Ok(out)
    }

    /// The wire bytes of the sub-TLV: a single zero for Pad1; otherwise the
    /// type, the length of the body modulo 256, and the body.
    pub fn to_bytes(&self) -> (buf: Vec<u8>)
        ensures
            buf@ == self@.wire(),
    {
        let mut buf: Vec<u8> = Vec::new();
        match self {
            SubTlv::Pad1 => {
                buf.push(0);
                assert(buf@ =~= self@.wire());
            },
            SubTlv::PadN { n } => {
                buf.push(1);
                buf.push(*n);
                push_zeros(&mut buf, *n);
                assert(buf@ =~= self@.wire());
            },
            SubTlv::Unknown { stype, data } => {
                buf.push(*stype);
                buf.push((data.len() % 256) as u8);
                push_bytes(&mut buf, data.as_slice());
                assert(buf@ =~= self@.wire());
            },
        }
        buf
    }
}

impl Tlv {
    /// Reads every TLV of `buf` in turn, up to its end.
    ///
    /// The end of the buffer ends the list and is no error. A TLV that
    /// cannot be read makes the whole reading fail, with the error that
    /// [`Tlv::parse`] gives for that TLV.
    pub fn parse_all(buf: &[u8]) -> (r: Result<Vec<Tlv>, String>)
        ensures
            match parse_many(buf@) {
                Ok(tlvs) => r matches Ok(v) && tlv_views(v@) == tlvs,
                Err(why) => r matches Err(e) && e@ == why.text(),
            },
    {
        let mut out: Vec<Tlv> = Vec::new();
        let mut cur = Cursor::new(buf);
        proof {
            assert(buf@.skip(0) =~= buf@);
            assert(tlv_views(out@) =~= Seq::<TlvView>::empty());
            if let Ok(tlvs) = parse_many(buf@) {
                assert(tlv_views(out@) + tlvs =~= tlvs);
            }
        }
        while cur.position() < buf.len()
            invariant
                cur.bytes() == buf@,
                cur.position() <= buf@.len(),
                parse_many(buf@) == joined(tlv_views(out@), parse_many(cur.remaining())),
            decreases buf@.len() - cur.position(),
        {
            let ghost rest = cur.remaining();
            let ghost front = tlv_views(out@);
            match Tlv::parse(&mut cur) {
                Ok(t) => {
                    out.push(t);
                    proof {
                        let used = parse_one(rest)->Done_used;
                        lemma_parse_one_used(rest);
                        assert(rest.skip(used as int) =~= cur.remaining());
                        assert(tlv_views(out@) =~= front.push(t@));
                        if let Ok(more) = parse_many(cur.remaining()) {
                            assert(front + (seq![t@] + more) =~= front.push(t@) + more);
                        }
                    }
                },
                Err(e) => {
                    return Err(e);
                },
            }
        }
        proof {
            assert(cur.remaining() =~= Seq::<u8>::empty());
            assert(tlv_views(out@) + Seq::<TlvView>::empty() =~= tlv_views(out@));
        }
        Ok(out)
    }

    /// Reads one TLV at the cursor and moves the cursor past what was read.
    ///
    /// Fails with `"EOF"` at the end of the buffer, with `"Length exceeds
    /// buffer"` where the length octet counts more bytes than are left, and
    /// with `"failed to fill whole buffer"` where the length octet is
    /// missing, the body is too short for its fields, or its sub-TLVs are
    /// malformed.
    pub fn parse(cur: &mut Cursor<'_>) -> (r: Result<Tlv, String>)
        ensures
            final(cur).bytes() == old(cur).bytes(),
            match parse_one(old(cur).remaining()) {
                ParseStep::Done { tlv, used } => {
                    &&& r matches Ok(t) && t@ == tlv
                    &&& final(cur).position() == old(cur).position() + used
                },
                ParseStep::Failed { why, used } => {
                    &&& r matches Err(e) && e@ == why.text()
                    &&& final(cur).position() == old(cur).position() + used
                },
            },
    {
        let start = cur.position();
        let buf = cur.get_ref();
        let total = buf.len();
        if start >= total {
            assert(cur.remaining() =~= Seq::<u8>::empty());
            return Err("EOF".to_owned());
        }
        let ghost s = cur.remaining();
        let t = buf[start];
        if t == 0 {
            cur.set_position(start + 1);
            return Ok(Tlv::Pad1);
        }
        if total - start < 2 {
            cur.set_position(total);
            return Err(truncated());
        }
        let length: usize = buf[start + 1] as usize;
        let pos = start + 2;
        if total - pos < length {
            cur.set_position(pos);
            return Err("Length exceeds buffer".to_owned());
        }
        let payload = slice_subrange(buf, pos, pos + length);
        cur.set_position(pos + length);
        assert(payload@ =~= s.subrange(2, 2 + length));
        Tlv::parse_payload(t, payload)
    }

    /// Reads the body of a TLV of type `t`, which is not Pad1.
    fn parse_payload(t: u8, p: &[u8]) -> (r: Result<Tlv, String>)
        ensures
            match parse_body(t, p@) {
                Some(tlv) => r matches Ok(x) && x@ == tlv,
                None => r matches Err(e) && e@ == ParseFailure::Truncated.text(),
            },
    {
        if t == 1 {
            Ok(Tlv::PadN { n: (p.len() % 256) as u8 })
        } else if t == 2 {
            match subs_from(p, 6) {
                Ok(sub_tlvs) => Ok(
                    Tlv::AckRequest { opaque: u16_at(p, 2), interval: u16_at(p, 4), sub_tlvs },
                ),
                Err(e) => Err(e),
            }
        } else if t == 3 {
            match subs_from(p, 2) {
                Ok(sub_tlvs) => Ok(Tlv::Ack { opaque: u16_at(p, 0), sub_tlvs }),
                Err(e) => Err(e),
            }
        } else if t == 4 {
            match subs_from(p, 6) {
                Ok(sub_tlvs) => Ok(
                    Tlv::Hello {
                        flags: u16_at(p, 0),
                        seqno: u16_at(p, 2),
                        interval: u16_at(p, 4),
                        sub_tlvs,
                    },
                ),
                Err(e) => Err(e),
            }
        } else if t == 5 {
            if p.len() < 6 {
                return Err(truncated());
            }
            let ae = p[0];
            let end = 6 + addr_octets(ae);
            match subs_from(p, end) {
                Ok(sub_tlvs) => Ok(
                    Tlv::Ihu {
                        ae,
                        rxcost: u16_at(p, 2),
                        interval: u16_at(p, 4),
                        addr: addr_at(ae, p, 6),
                        sub_tlvs,
                    },
                ),
                Err(e) => Err(e),
            }
        } else if t == 6 {
            match subs_from(p, 10) {
                Ok(sub_tlvs) => Ok(Tlv::RouterId { router_id: router_id_at(p, 2), sub_tlvs }),
                Err(e) => Err(e),
            }
        } else if t == 7 {
            if p.len() < 2 {
                return Err(truncated());
            }
            let ae = p[0];
            let end = 2 + addr_octets(ae);
            match subs_from(p, end) {
                Ok(sub_tlvs) => Ok(Tlv::NextHop { ae, addr: addr_at(ae, p, 2), sub_tlvs }),
                Err(e) => Err(e),
            }
        } else if t == 8 {
            if p.len() < 10 {
                return Err(truncated());
            }
            let plen = p[2];
            let omitted = p[3];
            let whole = prefix_len(plen);
            let skipped: usize = omitted as usize;
            let n: usize = if whole >= skipped {
                whole - skipped
            } else {
                0
            };
            match subs_from(p, 10 + n) {
                Ok(sub_tlvs) => Ok(
                    Tlv::Update {
                        ae: p[0],
                        flags: p[1],
                        plen,
                        omitted,
                        interval: u16_at(p, 4),
                        seqno: u16_at(p, 6),
                        metric: u16_at(p, 8),
                        prefix: bytes_at(p, 10, n),
                        sub_tlvs,
                    },
                ),
                Err(e) => Err(e),
            }
        } else if t == 9 {
            if p.len() < 2 {
                return Err(truncated());
            }
            let plen = p[1];
            let n = prefix_len(plen);
            match subs_from(p, 2 + n) {
                Ok(sub_tlvs) => Ok(
                    Tlv::RouteRequest { ae: p[0], plen, prefix: bytes_at(p, 2, n), sub_tlvs },
                ),
                Err(e) => Err(e),
            }
        } else if t == 10 {
            if p.len() < 14 {
                return Err(truncated());
            }
            let plen = p[1];
            let n = prefix_len(plen);
            match subs_from(p, 14 + n) {
                Ok(sub_tlvs) => Ok(
                    Tlv::SeqnoRequest {
                        ae: p[0],
                        plen,
                        seqno: u16_at(p, 2),
                        hop_count: p[4],
                        router_id: router_id_at(p, 6),
                        prefix: bytes_at(p, 14, n),
                        sub_tlvs,
                    },
                ),
                Err(e) => Err(e),
            }
        } else {
            assert(p@.subrange(0, p@.len() as int) =~= p@);
            Ok(Tlv::Unknown { tlv_type: t, data: bytes_at(p, 0, p.len()) })
        }
    }

    /// The wire bytes of the TLV: a single zero for Pad1; otherwise the
    /// type, the length of the body modulo 256, and the body, which is the
    /// fields in order, reserved octets as zero, and then the sub-TLVs.
    pub fn to_bytes(&self) -> (buf: Vec<u8>)
        ensures
            buf@ == self@.wire(),
    {
        let mut body: Vec<u8> = Vec::new();
        let code: u8;
        match self {
            Tlv::Pad1 => {
                body.push(0);
                assert(body@ =~= self@.wire());
                return body;
            },
            Tlv::PadN { n } => {
                code = 1;
                push_zeros(&mut body, *n);
                assert(wire_of_subs(self@.subs()) =~= Seq::<u8>::empty());
                assert(body@ =~= self@.body());
            },
            Tlv::AckRequest { opaque, interval, sub_tlvs } => {
                code = 2;
                body.push(0);
                body.push(0);
                push_u16(&mut body, *opaque);
                push_u16(&mut body, *interval);
                assert(body@ =~= self@.fixed());
                push_sub_tlvs(&mut body, sub_tlvs);
            },
            Tlv::Ack { opaque, sub_tlvs } => {
                code = 3;
                push_u16(&mut body, *opaque);
                assert(body@ =~= self@.fixed());
                push_sub_tlvs(&mut body, sub_tlvs);
            },
            Tlv::Hello { flags, seqno, interval, sub_tlvs } => {
                code = 4;
                push_u16(&mut body, *flags);
                push_u16(&mut body, *seqno);
                push_u16(&mut body, *interval);
                assert(body@ =~= self@.fixed());
                push_sub_tlvs(&mut body, sub_tlvs);
            },
            Tlv::Ihu { ae, rxcost, interval, addr, sub_tlvs } => {
                code = 5;
                body.push(*ae);
                body.push(0);
                push_u16(&mut body, *rxcost);
                push_u16(&mut body, *interval);
                push_addr(&mut body, addr);
                assert(body@ =~= self@.fixed());
                push_sub_tlvs(&mut body, sub_tlvs);
            },
            Tlv::RouterId { router_id, sub_tlvs } => {
                code = 6;
                body.push(0);
                body.push(0);
                push_bytes(&mut body, router_id.as_slice());
                assert(body@ =~= self@.fixed());
                push_sub_tlvs(&mut body, sub_tlvs);
            },
            Tlv::NextHop { ae, addr, sub_tlvs } => {
                code = 7;
                body.push(*ae);
                body.push(0);
                push_addr(&mut body, addr);
                assert(body@ =~= self@.fixed());
                push_sub_tlvs(&mut body, sub_tlvs);
            },
            Tlv::Update {
                ae,
                flags,
                plen,
                omitted,
                interval,
                seqno,
                metric,
                prefix,
                sub_tlvs,
            } => {
                code = 8;
                body.push(*ae);
                body.push(*flags);
                body.push(*plen);
                body.push(*omitted);
                push_u16(&mut body, *interval);
                push_u16(&mut body, *seqno);
                push_u16(&mut body, *metric);
                push_bytes(&mut body, prefix.as_slice());
                assert(body@ =~= self@.fixed());
                push_sub_tlvs(&mut body, sub_tlvs);
            },
            Tlv::RouteRequest { ae, plen, prefix, sub_tlvs } => {
                code = 9;
                body.push(*ae);
                body.push(*plen);
                push_bytes(&mut body, prefix.as_slice());
                assert(body@ =~= self@.fixed());
                push_sub_tlvs(&mut body, sub_tlvs);
            },
            Tlv::SeqnoRequest { ae, plen, seqno, hop_count, router_id, prefix, sub_tlvs } => {
                code = 10;
                body.push(*ae);
                body.push(*plen);
                push_u16(&mut body, *seqno);
                body.push(*hop_count);
                body.push(0);
                push_bytes(&mut body, router_id.as_slice());
                push_bytes(&mut body, prefix.as_slice());
                assert(body@ =~= self@.fixed());
                push_sub_tlvs(&mut body, sub_tlvs);
            },
            Tlv::Unknown { tlv_type, data } => {
                code = *tlv_type;
                push_bytes(&mut body, data.as_slice());
                assert(wire_of_subs(self@.subs()) =~= Seq::<u8>::empty());
                assert(body@ =~= self@.body());
            },
        }
        let mut buf: Vec<u8> = Vec::new();
        buf.push(code);
        buf.push((body.len() % 256) as u8);
        push_bytes(&mut buf, body.as_slice());
        assert(buf@ =~= self@.wire());
        buf
    }
}

} // verus!
