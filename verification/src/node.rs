//! The protocol engine of a Babel node.
//!
//! The node keeps the state and takes the decisions; it never touches a
//! socket or a clock. Its owner reads the clock, asks the node which packets
//! are due, sends them, tells the node that they went out, and hands it
//! every datagram that came in.

use crate::addr::{octets8_eq, opt_ip_same, IpAddr, SocketAddr};
use crate::event::{event_views, Event, EventView};
use crate::format::TlvView;
use crate::neighbor::{
    addrs_of, has_addr, keys_distinct, lemma_slot, lemma_with_entry, live_at, lookup, stale_at, with_entry, with_hello, with_ihu, Neighbor, NeighborTable,
};
use crate::packet::Packet;
use crate::routing::{
    best_of, copy_bytes, has_key, has_path, install_changes, installed, is_best,
    lemma_best_of_at, lemma_best_of_none, path_index, paths_distinct, Route, RouteKey,
    RouteKeyView, RouteView, RoutingTable,
};
use crate::tlv::{tlv_views, Tlv};
use vstd::prelude::*;

verus! {

/// The staleness multiplier a node prunes its neighbours with.
pub const STALE_MULTIPLIER: u32 = 3;

/// The receive cost a node announces in its IHUs.
pub const IHU_RXCOST: u16 = 256;

/// A prefix that the node itself originates.
#[derive(Debug)]
pub struct AdvertisedPrefix {
    /// Address encoding (1 for IPv4, 2 for IPv6).
    pub ae: u8,
    /// Prefix length in bits.
    pub plen: u8,
    /// The prefix octets.
    pub prefix: Vec<u8>,
    /// The metric to announce.
    pub metric: u16,
}

/// The mathematical value of an [`AdvertisedPrefix`].
pub struct AdvertisedPrefixView {
    pub ae: u8,
    pub plen: u8,
    pub prefix: Seq<u8>,
    pub metric: u16,
}

impl View for AdvertisedPrefix {
    type V = AdvertisedPrefixView;

    open spec fn view(&self) -> AdvertisedPrefixView {
        AdvertisedPrefixView {
            ae: self.ae,
            plen: self.plen,
            prefix: self.prefix@,
            metric: self.metric,
        }
    }
}

impl Clone for AdvertisedPrefix {
    fn clone(&self) -> (r: Self)
        ensures
            r@ == self@,
    {
        AdvertisedPrefix {
            ae: self.ae,
            plen: self.plen,
            prefix: copy_bytes(&self.prefix),
            metric: self.metric,
        }
    }
}

/// The values of a list of advertised prefixes.
pub open spec fn prefix_views(prefixes: Seq<AdvertisedPrefix>) -> Seq<AdvertisedPrefixView> {
    Seq::new(prefixes.len(), |i: int| prefixes[i]@)
}

/// The configuration of a node.
#[derive(Debug)]
pub struct BabelConfig {
    /// The time between two multicast Hellos, in milliseconds.
    pub hello_interval_ms: u16,
    /// The time between two rounds of IHUs, in milliseconds.
    pub ihu_interval_ms: u16,
    /// The time between two rounds of Updates, in milliseconds.
    pub update_interval_ms: u16,
    /// The prefixes that the node originates.
    pub advertised_prefixes: Vec<AdvertisedPrefix>,
}

impl Default for BabelConfig {
    fn default() -> (r: Self)
        ensures
            r.hello_interval_ms == 4000,
            r.ihu_interval_ms == 4000,
            r.update_interval_ms == 10000,
            r.advertised_prefixes@.len() == 0,
    {
        BabelConfig {
            hello_interval_ms: 4000,
            ihu_interval_ms: 4000,
            update_interval_ms: 10000,
            advertised_prefixes: Vec::new(),
        }
    }
}

impl Clone for BabelConfig {
    fn clone(&self) -> (r: Self)
        ensures
            r.hello_interval_ms == self.hello_interval_ms,
            r.ihu_interval_ms == self.ihu_interval_ms,
            r.update_interval_ms == self.update_interval_ms,
            prefix_views(r.advertised_prefixes@) == prefix_views(self.advertised_prefixes@),
    {
        BabelConfig {
            hello_interval_ms: self.hello_interval_ms,
            ihu_interval_ms: self.ihu_interval_ms,
            update_interval_ms: self.update_interval_ms,
            advertised_prefixes: clone_prefixes(&self.advertised_prefixes),
        }
    }
}

/// A copy of a list of advertised prefixes.
fn clone_prefixes(v: &Vec<AdvertisedPrefix>) -> (r: Vec<AdvertisedPrefix>)
    ensures
        prefix_views(r@) == prefix_views(v@),
{
    let mut out: Vec<AdvertisedPrefix> = Vec::new();
    let mut i: usize = 0;
    while i < v.len()
        invariant
            i <= v@.len(),
            prefix_views(out@) == prefix_views(v@).take(i as int),
        decreases v@.len() - i,
    {
        let ghost before = prefix_views(out@);
        let p = v[i].clone();
        assert(p@ == v@[i as int]@);
        out.push(p);
        assert(prefix_views(out@) =~= before.push(p@));
        i = i + 1;
        assert(prefix_views(out@) =~= prefix_views(v@).take(i as int));
    }
    assert(prefix_views(v@).take(i as int) =~= prefix_views(v@));
    out
}

impl BabelConfig {
    /// The default configuration: Hellos and IHUs every 4 s, Updates every
    /// 10 s, no prefix of its own.
    pub fn new() -> (r: Self)
        ensures
            r.hello_interval_ms == 4000,
            r.ihu_interval_ms == 4000,
            r.update_interval_ms == 10000,
            r.advertised_prefixes@.len() == 0,
    {
        BabelConfig {
            hello_interval_ms: 4000,
            ihu_interval_ms: 4000,
            update_interval_ms: 10000,
            advertised_prefixes: Vec::new(),
        }
    }

    /// The configuration with the Hello interval set.
    pub fn hello_interval_ms(self, value: u16) -> (r: Self)
        ensures
            r.hello_interval_ms == value,
            r.ihu_interval_ms == self.ihu_interval_ms,
            r.update_interval_ms == self.update_interval_ms,
            r.advertised_prefixes == self.advertised_prefixes,
    {
        let mut c = self;
        c.hello_interval_ms = value;
        c
    }

    /// The configuration with the IHU interval set.
    pub fn ihu_interval_ms(self, value: u16) -> (r: Self)
        ensures
            r.hello_interval_ms == self.hello_interval_ms,
            r.ihu_interval_ms == value,
            r.update_interval_ms == self.update_interval_ms,
            r.advertised_prefixes == self.advertised_prefixes,
    {
        let mut c = self;
        c.ihu_interval_ms = value;
        c
    }

    /// The configuration with the Update interval set.
    pub fn update_interval_ms(self, value: u16) -> (r: Self)
        ensures
            r.hello_interval_ms == self.hello_interval_ms,
            r.ihu_interval_ms == self.ihu_interval_ms,
            r.update_interval_ms == value,
            r.advertised_prefixes == self.advertised_prefixes,
    {
        let mut c = self;
        c.update_interval_ms = value;
        c
    }

    /// The configuration with one more prefix to originate, after the others.
    pub fn with_advertised_prefix(self, prefix: AdvertisedPrefix) -> (r: Self)
        ensures
            r.hello_interval_ms == self.hello_interval_ms,
            r.ihu_interval_ms == self.ihu_interval_ms,
            r.update_interval_ms == self.update_interval_ms,
            r.advertised_prefixes@ == self.advertised_prefixes@.push(prefix),
    {
        let mut c = self;
        c.advertised_prefixes.push(prefix);
        c
    }
}

/// What the latest RouterId and NextHop TLVs of one peer said. Updates of
/// that peer are read against it.
#[derive(Debug, Clone, Copy, PartialEq, Eq)]
pub struct SourceInfo {
    pub router_id: Option<[u8; 8]>,
    pub next_hop: Option<IpAddr>,
}

/// The mathematical value of a [`BabelNode`].
pub struct NodeView {
    pub router_id: [u8; 8],
    pub seqno: u16,
    pub hello_interval_ms: u16,
    pub last_hello: Option<u64>,
    pub ihu_interval_ms: u16,
    pub last_ihu: Option<u64>,
    pub update_interval_ms: u16,
    pub last_update: Option<u64>,
    pub advertised: Seq<AdvertisedPrefixView>,
    pub iface_index: u32,
    pub neighbors: Seq<(SocketAddr, Neighbor)>,
    pub routes: Seq<RouteView>,
    pub sources: Seq<(SocketAddr, SourceInfo)>,
    pub events: Seq<EventView>,
}

/// The time from `last` to `now`; none where the clock reads less than then.
pub open spec fn elapsed(last: u64, now: u64) -> int {
    if now >= last {
        now - last
    } else {
        0
    }
}

/// Whether a timer fires: it never fired, or its interval has passed.
pub open spec fn timer_due(last: Option<u64>, interval_ms: u16, now: u64) -> bool {
    match last {
        None => true,
        Some(l) => elapsed(l, now) >= interval_ms as int,
    }
}

/// The sequence number after `seqno`; it wraps at 65535.
pub open spec fn next_seqno(seqno: u16) -> u16 {
    if seqno == 0xffff {
        0
    } else {
        (seqno + 1) as u16
    }
}

/// What is known of a peer; nothing where none of its TLVs said anything.
pub open spec fn source_of(s: Seq<(SocketAddr, SourceInfo)>, src: SocketAddr) -> SourceInfo {
    match lookup(s, src) {
        Some(info) => info,
        None => SourceInfo { router_id: None, next_hop: None },
    }
}

/// One NeighborDown for each endpoint, in order.
pub open spec fn down_events(addrs: Seq<SocketAddr>) -> Seq<EventView> {
    Seq::new(addrs.len(), |i: int| EventView::NeighborDown(addrs[i]))
}

/// Whether a new best route counts as another than the old one: there was
/// none, or metric, sequence number, router-id or next hop differ.
pub open spec fn best_differs(old_best: Option<RouteView>, best: RouteView) -> bool {
    match old_best {
        None => true,
        Some(o) => o.metric != best.metric || o.seqno != best.seqno || o.router_id
            != best.router_id || o.next_hop != best.next_hop,
    }
}

impl NodeView {
    /// The state of a node that has done nothing yet.
    pub open spec fn initial(
        iface_index: u32,
        router_id: [u8; 8],
        hello_interval_ms: u16,
        ihu_interval_ms: u16,
        update_interval_ms: u16,
        advertised: Seq<AdvertisedPrefixView>,
    ) -> NodeView {
        NodeView {
            router_id,
            seqno: 1,
            hello_interval_ms,
            last_hello: None,
            ihu_interval_ms,
            last_ihu: None,
            update_interval_ms,
            last_update: None,
            advertised,
            iface_index,
            neighbors: Seq::empty(),
            routes: Seq::empty(),
            sources: Seq::empty(),
            events: Seq::empty(),
        }
    }

    /// Whether a Hello is due at `now`.
    pub open spec fn hello_due(self, now: u64) -> bool {
        timer_due(self.last_hello, self.hello_interval_ms, now)
    }

    /// The Hello that the node sends next.
    pub open spec fn hello(self) -> TlvView {
        TlvView::Hello {
            flags: 0,
            seqno: self.seqno,
            interval: self.hello_interval_ms,
            sub_tlvs: Seq::empty(),
        }
    }

    /// The node after its Hello went out at `now`.
    pub open spec fn after_hello_sent(self, now: u64) -> NodeView {
        NodeView { seqno: next_seqno(self.seqno), last_hello: Some(now), ..self }
    }

    /// Whether a round of IHUs is due at `now`: there is a neighbour, and
    /// the timer fires.
    pub open spec fn ihus_due(self, now: u64) -> bool {
        self.neighbors.len() > 0 && timer_due(self.last_ihu, self.ihu_interval_ms, now)
    }

    /// The IHU that the node sends to the neighbour `n`.
    pub open spec fn ihu_for(self, n: Neighbor) -> TlvView {
        TlvView::Ihu {
            ae: if n.addr.ip is V4 {
                1
            } else {
                2
            },
            rxcost: IHU_RXCOST,
            interval: self.ihu_interval_ms,
            addr: Some(n.addr.ip),
            sub_tlvs: Seq::empty(),
        }
    }

    /// The node after its IHUs went out at `now`.
    pub open spec fn after_ihus_sent(self, now: u64) -> NodeView {
        NodeView { last_ihu: Some(now), ..self }
    }

    /// Whether a round of Updates is due at `now`: there is a prefix to
    /// announce, and the timer fires.
    pub open spec fn updates_due(self, now: u64) -> bool {
        self.advertised.len() > 0 && timer_due(self.last_update, self.update_interval_ms, now)
    }

    /// The Update that the node sends for its prefix `p`.
    pub open spec fn update_for(self, p: AdvertisedPrefixView) -> TlvView {
        TlvView::Update {
            ae: p.ae,
            flags: 0,
            plen: p.plen,
            omitted: 0,
            interval: self.update_interval_ms,
            seqno: self.seqno,
            metric: p.metric,
            prefix: p.prefix,
            sub_tlvs: Seq::empty(),
        }
    }

    /// The node after its Updates went out at `now`.
    pub open spec fn after_updates_sent(self, now: u64) -> NodeView {
        NodeView { seqno: next_seqno(self.seqno), last_update: Some(now), ..self }
    }

    /// The node after installing the route `r`. Where the table changes,
    /// RouteUpdated reports the best route to the prefix, and
    /// BestRouteChanged follows where that is another than before.
    pub open spec fn after_install(self, r: RouteView) -> NodeView {
        if !install_changes(self.routes, r) {
            self
        } else {
            let routes = installed(self.routes, r);
            match best_of(routes, r.key) {
                None => NodeView { routes, ..self },
                Some(best) => {
                    let updated = self.events.push(EventView::RouteUpdated(r.key, best));
                    let events = if best_differs(best_of(self.routes, r.key), best) {
                        updated.push(EventView::BestRouteChanged(r.key, best))
                    } else {
                        updated
                    };
                    NodeView { routes, events, ..self }
                },
            }
        }
    }

    /// The route of the node's own prefix `p`.
    pub open spec fn local_route(self, p: AdvertisedPrefixView) -> RouteView {
        RouteView {
            key: RouteKeyView { ae: p.ae, plen: p.plen, prefix: p.prefix },
            metric: p.metric,
            seqno: self.seqno,
            router_id: self.router_id,
            next_hop: None,
            iface_index: self.iface_index,
        }
    }

    /// The node after installing the routes of its own prefixes, in order.
    pub open spec fn with_local_routes(self, prefixes: Seq<AdvertisedPrefixView>) -> NodeView
        decreases prefixes.len(),
    {
        if prefixes.len() == 0 {
            self
        } else {
            self.after_install(self.local_route(prefixes[0])).with_local_routes(
                prefixes.drop_first(),
            )
        }
    }

    /// The route that an Update from `src` stands for, given the router-id
    /// that `src` announced before: the next hop is the one `src` announced,
    /// or else the address of `src` itself.
    pub open spec fn learned_route(
        self,
        src: SocketAddr,
        router_id: [u8; 8],
        ae: u8,
        plen: u8,
        prefix: Seq<u8>,
        seqno: u16,
        metric: u16,
    ) -> RouteView {
        RouteView {
            key: RouteKeyView { ae, plen, prefix },
            metric,
            seqno,
            router_id,
            next_hop: match source_of(self.sources, src).next_hop {
                Some(hop) => Some(hop),
                None => Some(src.ip),
            },
            iface_index: self.iface_index,
        }
    }

    /// The node after one TLV that came from `src` at `now`.
    ///
    /// A Hello updates the neighbour and reports NeighborUp where it was not
    /// known. An IHU updates the neighbour. RouterId and NextHop are kept for
    /// the Updates of `src` that follow; a NextHop without an address stands
    /// for the address of `src`. An Update is dropped where `src` has
    /// announced no router-id, and otherwise installed as a route. Every
    /// other TLV leaves the node as it is.
    pub open spec fn after_tlv(self, src: SocketAddr, t: TlvView, now: u64) -> NodeView {
        match t {
            TlvView::Hello { seqno, interval, .. } => {
                let neighbors = with_hello(
                    self.neighbors,
                    src,
                    self.iface_index,
                    seqno,
                    interval,
                    now,
                );
                let events = if has_addr(self.neighbors, src) {
                    self.events
                } else {
                    match lookup(neighbors, src) {
                        Some(n) => self.events.push(EventView::NeighborUp(src, n)),
                        None => self.events,
                    }
                };
                NodeView { neighbors, events, ..self }
            },
            TlvView::Ihu { rxcost, .. } => NodeView {
                neighbors: with_ihu(self.neighbors, src, self.iface_index, rxcost, now),
                ..self
            },
            TlvView::RouterId { router_id, .. } => NodeView {
                sources: with_entry(
                    self.sources,
                    src,
                    SourceInfo { router_id: Some(router_id), ..source_of(self.sources, src) },
                ),
                ..self
            },
            TlvView::NextHop { addr, .. } => NodeView {
                sources: with_entry(
                    self.sources,
                    src,
                    SourceInfo {
                        next_hop: match addr {
                            Some(a) => Some(a),
                            None => Some(src.ip),
                        },
                        ..source_of(self.sources, src)
                    },
                ),
                ..self
            },
            TlvView::Update { ae, plen, seqno, metric, prefix, .. } => {
                match source_of(self.sources, src).router_id {
                    Some(router_id) => self.after_install(
                        self.learned_route(src, router_id, ae, plen, prefix, seqno, metric),
                    ),
                    None => self,
                }
            },
            _ => self,
        }
    }

    /// The node after the TLVs of one datagram, taken in wire order.
    pub open spec fn after_tlvs(self, src: SocketAddr, tlvs: Seq<TlvView>, now: u64) -> NodeView
        decreases tlvs.len(),
    {
        if tlvs.len() == 0 {
            self
        } else {
            self.after_tlv(src, tlvs[0], now).after_tlvs(src, tlvs.drop_first(), now)
        }
    }

    /// The node after its stale neighbours were removed at `now`, with one
    /// NeighborDown for each, in table order.
    pub open spec fn after_prune(self, now: u64) -> NodeView {
        NodeView {
            neighbors: self.neighbors.filter(live_at(now, STALE_MULTIPLIER)),
            events: self.events + down_events(
                addrs_of(self.neighbors.filter(stale_at(now, STALE_MULTIPLIER))),
            ),
            ..self
        }
    }
}

/// The protocol engine of one node.
#[derive(Debug)]
pub struct BabelNode {
    router_id: [u8; 8],
    seqno: u16,
    hello_interval_ms: u16,
    last_hello: Option<u64>,
    ihu_interval_ms: u16,
    last_ihu: Option<u64>,
    update_interval_ms: u16,
    last_update_advert: Option<u64>,
    advertised_prefixes: Vec<AdvertisedPrefix>,
    /// The interface that the node listens on.
    pub iface_index: u32,
    /// The neighbours of the node.
    pub neighbors: NeighborTable,
    /// The routes of the node.
    pub routes: RoutingTable,
    source_info: Vec<(SocketAddr, SourceInfo)>,
    events: Vec<Event>,
}

impl View for BabelNode {
    type V = NodeView;

    closed spec fn view(&self) -> NodeView {
        NodeView {
            router_id: self.router_id,
            seqno: self.seqno,
            hello_interval_ms: self.hello_interval_ms,
            last_hello: self.last_hello,
            ihu_interval_ms: self.ihu_interval_ms,
            last_ihu: self.last_ihu,
            update_interval_ms: self.update_interval_ms,
            last_update: self.last_update_advert,
            advertised: prefix_views(self.advertised_prefixes@),
            iface_index: self.iface_index,
            neighbors: self.neighbors@,
            routes: self.routes@,
            sources: self.source_info@,
            events: event_views(self.events@),
        }
    }
}

/// Whether the timer that last fired at `last` fires at `now`.
fn is_due(last: Option<u64>, interval_ms: u16, now: u64) -> (r: bool)
    ensures
        r == timer_due(last, interval_ms, now),
{
    match last {
        None => true,
        Some(l) => {
            let gone: u64 = if now >= l {
                now - l
            } else {
                0
            };
            gone >= interval_ms as u64
        },
    }
}

/// The sequence number after `seqno`.
fn bump(seqno: u16) -> (r: u16)
    ensures
        r == next_seqno(seqno),
{
    if seqno == 0xffff {
        0
    } else {
        seqno + 1
    }
}

/// The place of the entry kept under `addr`.
fn source_find(v: &Vec<(SocketAddr, SourceInfo)>, addr: &SocketAddr) -> (r: Option<usize>)
    ensures
        match r {
            Some(i) => i < v@.len() && v@[i as int].0 == *addr,
            None => !has_addr(v@, *addr),
        },
{
    let mut i: usize = 0;
    while i < v.len()
        invariant
            i <= v@.len(),
            forall|k: int| 0 <= k < i ==> (#[trigger] v@[k]).0 != *addr,
        decreases v@.len() - i,
    {
        if v[i].0.same(addr) {
            return Some(i);
        }
        i = i + 1;
    }
    None
}

/// What is known of the peer `addr`.
fn source_get(v: &Vec<(SocketAddr, SourceInfo)>, addr: &SocketAddr) -> (r: SourceInfo)
    requires
        keys_distinct(v@),
    ensures
        r == source_of(v@, *addr),
{
    match source_find(v, addr) {
        Some(i) => {
            proof {
                lemma_slot(v@, *addr, i as int);
            }
            v[i].1
        },
        None => SourceInfo { router_id: None, next_hop: None },
    }
}

/// Keeps `info` as what is known of the peer `addr`.
fn source_put(v: &mut Vec<(SocketAddr, SourceInfo)>, addr: SocketAddr, info: SourceInfo)
    requires
        keys_distinct(old(v)@),
    ensures
        keys_distinct(final(v)@),
        final(v)@ == with_entry(old(v)@, addr, info),
{
    proof {
        lemma_with_entry(v@, addr, info);
    }
    match source_find(v, &addr) {
        Some(i) => {
            proof {
                lemma_slot(v@, addr, i as int);
            }
            v[i] = (addr, info);
        },
        None => {
            v.push((addr, info));
        },
    }
}

impl BabelNode {
    /// The invariant of the node: one neighbour for each endpoint, one
    /// route for each path, and one record of what a peer announced for each
    /// peer.
    pub open spec fn wf(&self) -> bool {
        &&& keys_distinct(self@.neighbors)
        &&& paths_distinct(self@.routes)
        &&& keys_distinct(self@.sources)
    }

    /// A node on the interface `iface_index`, with the router-id
    /// `router_id`. Its sequence number starts at 1. The routes of its own
    /// prefixes are installed at once, each with RouteUpdated and
    /// BestRouteChanged.
    pub fn new(iface_index: u32, router_id: [u8; 8], config: BabelConfig) -> (node: Self)
        ensures
            node.wf(),
            node@ == NodeView::initial(
                iface_index,
                router_id,
                config.hello_interval_ms,
                config.ihu_interval_ms,
                config.update_interval_ms,
                prefix_views(config.advertised_prefixes@),
            ).with_local_routes(prefix_views(config.advertised_prefixes@)),
    {
        let mut node = BabelNode {
            router_id,
            seqno: 1,
            hello_interval_ms: config.hello_interval_ms,
            last_hello: None,
            ihu_interval_ms: config.ihu_interval_ms,
            last_ihu: None,
            update_interval_ms: config.update_interval_ms,
            last_update_advert: None,
            advertised_prefixes: config.advertised_prefixes,
            iface_index,
            neighbors: NeighborTable::new(),
            routes: RoutingTable::new(),
            source_info: Vec::new(),
            events: Vec::new(),
        };
        assert(node@ =~= NodeView::initial(
            iface_index,
            router_id,
            config.hello_interval_ms,
            config.ihu_interval_ms,
            config.update_interval_ms,
            prefix_views(config.advertised_prefixes@),
        )) by {
            assert(node@.events =~= Seq::<EventView>::empty());
            assert(node@.sources =~= Seq::<(SocketAddr, SourceInfo)>::empty());
        }
        node.install_local_advertised_routes();
        node
    }

    /// The router-id of the node.
    pub fn router_id(&self) -> (r: [u8; 8])
        ensures
            r == self@.router_id,
    {
        self.router_id
    }

    /// The sequence number that the node sends next.
    pub fn seqno(&self) -> (r: u16)
        ensures
            r == self@.seqno,
    {
        self.seqno
    }

    /// Every neighbour, in table order.
    pub fn neighbors(&self) -> (r: Vec<&Neighbor>)
        ensures
            r@.len() == self@.neighbors.len(),
            forall|i: int| 0 <= i < r@.len() ==> *(#[trigger] r@[i]) == self@.neighbors[i].1,
    {
        self.neighbors.all()
    }

    /// Every route, in table order.
    pub fn routes(&self) -> (r: &[Route])
        ensures
            crate::routing::route_views(r@) == self@.routes,
    {
        self.routes.all()
    }

    /// The router-id that the peer `src` announced last, if it announced
    /// one. Updates of a peer that announced none are dropped.
    pub fn source_router_id(&self, src: &SocketAddr) -> (r: Option<[u8; 8]>)
        requires
            self.wf(),
        ensures
            r == source_of(self@.sources, *src).router_id,
    {
        source_get(&self.source_info, src).router_id
    }

    /// The best route to `key`, if any route leads there.
    pub fn best_route(&self, key: &RouteKey) -> (r: Option<&Route>)
        ensures
            match r {
                Some(route) => best_of(self@.routes, key@) == Some(route@),
                None => best_of(self@.routes, key@) is None,
            },
    {
        self.routes.best_route(key)
    }

    /// The Hello that the node multicasts next: no flags, the current
    /// sequence number, and the Hello interval.
    pub fn hello_packet(&self) -> (p: Packet)
        ensures
            p@ == seq![self@.hello()],
    {
        Packet::build_hello(0, self.seqno, self.hello_interval_ms)
    }

    /// The Hello to multicast, where one is due at `now`. The owner sends it
    /// and then calls [`BabelNode::hello_sent`].
    pub fn maybe_send_hello(&self, now: u64) -> (r: Option<Packet>)
        ensures
            match r {
                Some(p) => self@.hello_due(now) && p@ == seq![self@.hello()],
                None => !self@.hello_due(now),
            },
    {
        if is_due(self.last_hello, self.hello_interval_ms, now) {
            Some(self.hello_packet())
        } else {
            None
        }
    }

    /// Records that the Hello went out at `now`: the sequence number moves
    /// on, and the Hello timer starts again.
    pub fn hello_sent(&mut self, now: u64)
        requires
            old(self).wf(),
        ensures
            final(self).wf(),
            final(self)@ == old(self)@.after_hello_sent(now),
    {
        self.seqno = bump(self.seqno);
        self.last_hello = Some(now);
    }

    /// The IHUs of one round: one for each neighbour, in table order, each
    /// with the endpoint to send it to. An IHU carries the neighbour's own
    /// address, under the encoding of its family, and a receive cost of 256.
    pub fn ihu_packets(&self) -> (v: Vec<(SocketAddr, Packet)>)
        ensures
            v@.len() == self@.neighbors.len(),
            forall|i: int|
                0 <= i < v@.len() ==> {
                    &&& (#[trigger] v@[i]).0 == self@.neighbors[i].1.addr
                    &&& v@[i].1@ == seq![self@.ihu_for(self@.neighbors[i].1)]
                },
    {
        let all = self.neighbors.all();
        let mut out: Vec<(SocketAddr, Packet)> = Vec::new();
        let mut i: usize = 0;
        while i < all.len()
            invariant
                i <= all@.len(),
                all@.len() == self@.neighbors.len(),
                forall|k: int| 0 <= k < all@.len() ==> *(#[trigger] all@[k]) == self@.neighbors[k].1,
                out@.len() == i,
                forall|k: int|
                    0 <= k < i ==> {
                        &&& (#[trigger] out@[k]).0 == self@.neighbors[k].1.addr
                        &&& out@[k].1@ == seq![self@.ihu_for(self@.neighbors[k].1)]
                    },
            decreases all@.len() - i,
        {
            let n = all[i];
            let ip = n.addr.ip();
            let ae: u8 = if ip.is_ipv4() {
                1
            } else {
                2
            };
            let pkt = Packet::build_ihu(ae, IHU_RXCOST, self.ihu_interval_ms, Some(ip));
            out.push((n.addr, pkt));
            i = i + 1;
        }
        out
    }

    /// The IHUs to send, where a round is due at `now`; `None` where no
    /// neighbour is known. The owner sends them and then calls
    /// [`BabelNode::ihus_sent`].
    pub fn maybe_send_ihus(&self, now: u64) -> (r: Option<Vec<(SocketAddr, Packet)>>)
        ensures
            match r {
                Some(v) => {
                    &&& self@.ihus_due(now)
                    &&& v@.len() == self@.neighbors.len()
                    &&& forall|i: int|
                        0 <= i < v@.len() ==> {
                            &&& (#[trigger] v@[i]).0 == self@.neighbors[i].1.addr
                            &&& v@[i].1@ == seq![self@.ihu_for(self@.neighbors[i].1)]
                        }
                },
                None => !self@.ihus_due(now),
            },
    {
        if self.neighbors.is_empty() || !is_due(self.last_ihu, self.ihu_interval_ms, now) {
            None
        } else {
            Some(self.ihu_packets())
        }
    }

    /// Records that the IHUs went out at `now`: the IHU timer starts again.
    pub fn ihus_sent(&mut self, now: u64)
        requires
            old(self).wf(),
        ensures
            final(self).wf(),
            final(self)@ == old(self)@.after_ihus_sent(now),
    {
        self.last_ihu = Some(now);
    }

    /// The Updates of one round: one for each prefix of the node's own, in
    /// order, each with the current sequence number and the prefix's metric.
    pub fn update_packets(&self) -> (v: Vec<Packet>)
        ensures
            v@.len() == self@.advertised.len(),
            forall|i: int|
                0 <= i < v@.len() ==> (#[trigger] v@[i])@ == seq![
                    self@.update_for(self@.advertised[i]),
                ],
    {
        let mut out: Vec<Packet> = Vec::new();
        let mut i: usize = 0;
        while i < self.advertised_prefixes.len()
            invariant
                i <= self.advertised_prefixes@.len(),
                self@.advertised == prefix_views(self.advertised_prefixes@),
                self@.seqno == self.seqno,
                self@.update_interval_ms == self.update_interval_ms,
                out@.len() == i,
                forall|k: int|
                    0 <= k < i ==> (#[trigger] out@[k])@ == seq![
                        self@.update_for(self@.advertised[k]),
                    ],
            decreases self.advertised_prefixes@.len() - i,
        {
            let p = &self.advertised_prefixes[i];
            let pkt = Packet::build_update(
                p.ae,
                0,
                p.plen,
                0,
                self.update_interval_ms,
                self.seqno,
                p.metric,
                copy_bytes(&p.prefix),
            );
            out.push(pkt);
            i = i + 1;
        }
        out
    }

    /// The Updates to multicast, where a round is due at `now`; `None`
    /// where the node has no prefix of its own. The owner sends them and
    /// then calls [`BabelNode::updates_sent`].
    pub fn maybe_send_updates(&self, now: u64) -> (r: Option<Vec<Packet>>)
        ensures
            match r {
                Some(v) => {
                    &&& self@.updates_due(now)
                    &&& v@.len() == self@.advertised.len()
                    &&& forall|i: int|
                        0 <= i < v@.len() ==> (#[trigger] v@[i])@ == seq![
                            self@.update_for(self@.advertised[i]),
                        ]
                },
                None => !self@.updates_due(now),
            },
    {
        if self.advertised_prefixes.len() == 0 || !is_due(
            self.last_update_advert,
            self.update_interval_ms,
            now,
        ) {
            None
        } else {
            Some(self.update_packets())
        }
    }

    /// Records that the Updates went out at `now`: the sequence number
    /// moves on once, and the Update timer starts again.
    pub fn updates_sent(&mut self, now: u64)
        requires
            old(self).wf(),
        ensures
            final(self).wf(),
            final(self)@ == old(self)@.after_updates_sent(now),
    {
        self.seqno = bump(self.seqno);
        self.last_update_advert = Some(now);
    }

    /// Appends an event to the queue.
    fn push_event(&mut self, ev: Event)
        requires
            old(self).wf(),
        ensures
            final(self).wf(),
            final(self)@ == (NodeView { events: old(self)@.events.push(ev@), ..old(self)@ }),
    {
        self.events.push(ev);
        assert(event_views(self.events@) =~= event_views(old(self).events@).push(ev@));
    }

    /// Installs a route and reports what changed.
    fn install_route_and_emit_events(&mut self, route: Route)
        requires
            old(self).wf(),
        ensures
            final(self).wf(),
            final(self)@ == old(self)@.after_install(route@),
    {
        let key = route.key.clone();
        let old_best: Option<Route> = match self.routes.best_route(&key) {
            Some(r) => Some(r.clone()),
            None => None,
        };
        let changed = self.routes.install_or_update(route);
        if !changed {
            return ;
        }
        let best: Option<Route> = match self.routes.best_route(&key) {
            Some(r) => Some(r.clone()),
            None => None,
        };
        match best {
            Some(best) => {
                let best_changed = match &old_best {
                    None => true,
                    Some(o) => o.metric != best.metric || o.seqno != best.seqno || !octets8_eq(
                        &o.router_id,
                        &best.router_id,
                    ) || !opt_ip_same(&o.next_hop, &best.next_hop),
                };
                self.push_event(Event::RouteUpdated(key.clone(), best.clone()));
                if best_changed {
                    self.push_event(Event::BestRouteChanged(key, best));
                }
            },
            None => {},
        }
    }

    /// Installs the routes of the node's own prefixes.
    fn install_local_advertised_routes(&mut self)
        requires
            old(self).wf(),
        ensures
            final(self).wf(),
            final(self)@ == old(self)@.with_local_routes(old(self)@.advertised),
    {
        let prefixes = clone_prefixes(&self.advertised_prefixes);
        let router_id = self.router_id;
        let iface_index = self.iface_index;
        let seqno = self.seqno;
        let ghost all = self@.advertised;
        let mut i: usize = 0;
        assert(all.skip(0) =~= all);
        while i < prefixes.len()
            invariant
                i <= prefixes@.len(),
                prefix_views(prefixes@) == all,
                self.wf(),
                self.router_id == router_id,
                self.iface_index == iface_index,
                self.seqno == seqno,
                self@.with_local_routes(all.skip(i as int)) == old(self)@.with_local_routes(all),
            decreases prefixes@.len() - i,
        {
            let p = &prefixes[i];
            let route = Route {
                key: RouteKey { ae: p.ae, plen: p.plen, prefix: copy_bytes(&p.prefix) },
                metric: p.metric,
                seqno,
                router_id,
                next_hop: None,
                iface_index,
            };
            proof {
                assert(all.skip(i as int)[0] == p@);
                assert(all.skip(i as int).drop_first() =~= all.skip(i + 1));
                assert(route@ == self@.local_route(p@));
            }
            self.install_route_and_emit_events(route);
            i = i + 1;
        }
    }

    /// Takes in one TLV that came from `src` at `now`.
    fn handle_tlv(&mut self, src: SocketAddr, tlv: &Tlv, now: u64)
        requires
            old(self).wf(),
        ensures
            final(self).wf(),
            final(self)@ == old(self)@.after_tlv(src, tlv@, now),
    {
        let iface_index = self.iface_index;
        match tlv {
            Tlv::Hello { seqno, interval, .. } => {
                let is_new = self.neighbors.get(&src).is_none();
                self.neighbors.update_on_hello(src, iface_index, *seqno, *interval, now);
                if is_new {
                    let found: Option<Neighbor> = match self.neighbors.get(&src) {
                        Some(n) => Some(*n),
                        None => None,
                    };
                    match found {
                        Some(n) => self.push_event(Event::NeighborUp(src, n)),
                        None => {},
                    }
                }
            },
            Tlv::Ihu { rxcost, interval, .. } => {
                self.neighbors.update_on_ihu(src, iface_index, *rxcost, *interval, now);
            },
            Tlv::RouterId { router_id, .. } => {
                let mut info = source_get(&self.source_info, &src);
                info.router_id = Some(*router_id);
                source_put(&mut self.source_info, src, info);
            },
            Tlv::NextHop { addr, .. } => {
                let mut info = source_get(&self.source_info, &src);
                info.next_hop = match addr {
                    Some(a) => Some(*a),
                    None => Some(src.ip()),
                };
                source_put(&mut self.source_info, src, info);
            },
            Tlv::Update { ae, plen, seqno, metric, prefix, .. } => {
                let info = source_get(&self.source_info, &src);
                match info.router_id {
                    Some(router_id) => {
                        let next_hop = match info.next_hop {
                            Some(hop) => Some(hop),
                            None => Some(src.ip()),
                        };
                        let route = Route {
                            key: RouteKey { ae: *ae, plen: *plen, prefix: copy_bytes(prefix) },
                            metric: *metric,
                            seqno: *seqno,
                            router_id,
                            next_hop,
                            iface_index,
                        };
                        self.install_route_and_emit_events(route);
                    },
                    None => {},
                }
            },
            _ => {},
        }
    }

    /// Takes in the TLVs of one datagram that came from `src` at `now`, in
    /// wire order, and queues the events that they give rise to.
    pub fn handle_tlvs_from(&mut self, src: SocketAddr, tlvs: &[Tlv], now: u64)
        requires
            old(self).wf(),
        ensures
            final(self).wf(),
            final(self)@ == old(self)@.after_tlvs(src, tlv_views(tlvs@), now),
    {
        let ghost all = tlv_views(tlvs@);
        let mut i: usize = 0;
        assert(all.skip(0) =~= all);
        while i < tlvs.len()
            invariant
                i <= tlvs@.len(),
                all == tlv_views(tlvs@),
                self.wf(),
                self@.after_tlvs(src, all.skip(i as int), now) == old(self)@.after_tlvs(
                    src,
                    all,
                    now,
                ),
            decreases tlvs@.len() - i,
        {
            proof {
                assert(all.skip(i as int)[0] == tlvs@[i as int]@);
                assert(all.skip(i as int).drop_first() =~= all.skip(i + 1));
            }
            self.handle_tlv(src, &tlvs[i], now);
            i = i + 1;
        }
    }

    /// Removes the neighbours that are stale at `now`, and queues a
    /// NeighborDown for each.
    pub fn prune_neighbors(&mut self, now: u64)
        requires
            old(self).wf(),
        ensures
            final(self).wf(),
            final(self)@ == old(self)@.after_prune(now),
    {
        let gone = self.neighbors.prune_stale_with_addrs(now, STALE_MULTIPLIER);
        let ghost before = self@;
        let mut i: usize = 0;
        assert(before.events + down_events(gone@.take(0)) =~= before.events);
        while i < gone.len()
            invariant
                i <= gone@.len(),
                self.wf(),
                self@ == (NodeView {
                    events: before.events + down_events(gone@.take(i as int)),
                    ..before
                }),
            decreases gone@.len() - i,
        {
            self.push_event(Event::NeighborDown(gone[i]));
            proof {
                assert(before.events + down_events(gone@.take(i + 1)) =~= (before.events
                    + down_events(gone@.take(i as int))).push(EventView::NeighborDown(gone@[i as int])));
            }
            i = i + 1;
        }
        assert(gone@.take(i as int) =~= gone@);
    }

    /// The events that are queued, in the order in which they arose; the
    /// queue is empty afterwards.
    pub fn drain_events(&mut self) -> (r: Vec<Event>)
        requires
            old(self).wf(),
        ensures
            final(self).wf(),
            event_views(r@) == old(self)@.events,
            final(self)@ == (NodeView { events: Seq::empty(), ..old(self)@ }),
    {
        let mut out: Vec<Event> = Vec::new();
        std::mem::swap(&mut out, &mut self.events);
        assert(event_views(self.events@) =~= Seq::<EventView>::empty());
        out
    }
}

/// Installing a route to a prefix that no route leads to yet appends it to
/// the table, and queues RouteUpdated and BestRouteChanged for it.
pub proof fn lemma_install_new_prefix(v: NodeView, r: RouteView)
    requires
        !has_key(v.routes, r.key),
    ensures
        v.after_install(r) == (NodeView {
            routes: v.routes.push(r),
            events: v.events.push(EventView::RouteUpdated(r.key, r)).push(
                EventView::BestRouteChanged(r.key, r),
            ),
            ..v
        }),
{
    assert(!has_path(v.routes, r)) by {
        if has_path(v.routes, r) {
            let i = path_index(v.routes, r);
            assert(v.routes[i].key == r.key);
        }
    }
    let routes = v.routes.push(r);
    assert(is_best(routes, r.key, v.routes.len() as int)) by {
        assert forall|j: int| 0 <= j < routes.len() && (#[trigger] routes[j]).key
            == r.key implies j == v.routes.len() by {
            if j < v.routes.len() {
                assert(v.routes[j].key == r.key);
            }
        }
    }
    lemma_best_of_at(routes, r.key, v.routes.len() as int);
    lemma_best_of_none(v.routes, r.key);
}

/// The prefix that an advertised prefix names.
pub open spec fn key_of(p: AdvertisedPrefixView) -> RouteKeyView {
    RouteKeyView { ae: p.ae, plen: p.plen, prefix: p.prefix }
}

/// What installing the node's own prefixes queues where each is new:
/// RouteUpdated and BestRouteChanged for each prefix, in order.
pub open spec fn local_events(v: NodeView, prefixes: Seq<AdvertisedPrefixView>) -> Seq<EventView>
    decreases prefixes.len(),
{
    if prefixes.len() == 0 {
        Seq::empty()
    } else {
        let r = v.local_route(prefixes[0]);
        seq![EventView::RouteUpdated(r.key, r), EventView::BestRouteChanged(r.key, r)]
            + local_events(v, prefixes.drop_first())
    }
}

/// Where the node's own prefixes differ from each other and from every
/// prefix that a route leads to, installing them appends one route for each,
/// in order, and queues RouteUpdated and BestRouteChanged for each. So does
/// a new node whose configured prefixes differ from each other.
pub proof fn lemma_local_routes(v: NodeView, prefixes: Seq<AdvertisedPrefixView>)
    requires
        forall|i: int| 0 <= i < prefixes.len() ==> !has_key(v.routes, key_of(#[trigger] prefixes[i])),
        forall|i: int, j: int|
            0 <= i < j < prefixes.len() ==> key_of(#[trigger] prefixes[i]) != key_of(
                #[trigger] prefixes[j],
            ),
    ensures
        v.with_local_routes(prefixes).routes == v.routes + Seq::new(
            prefixes.len(),
            |i: int| v.local_route(prefixes[i]),
        ),
        v.with_local_routes(prefixes).events == v.events + local_events(v, prefixes),
    decreases prefixes.len(),
{
    let want = Seq::new(prefixes.len(), |i: int| v.local_route(prefixes[i]));
    if prefixes.len() == 0 {
        assert(v.routes + want =~= v.routes);
        assert(v.events + local_events(v, prefixes) =~= v.events);
    } else {
        let r = v.local_route(prefixes[0]);
        let tail = prefixes.drop_first();
        assert(r.key == key_of(prefixes[0]));
        lemma_install_new_prefix(v, r);
        let v1 = v.after_install(r);
        assert forall|i: int| 0 <= i < tail.len() implies !has_key(
            v1.routes,
            key_of(#[trigger] tail[i]),
        ) by {
            let k = key_of(tail[i]);
            assert(tail[i] == prefixes[i + 1]);
            assert(!has_key(v.routes, key_of(prefixes[i + 1])));
            assert(key_of(prefixes[0]) != key_of(prefixes[i + 1]));
            if has_key(v1.routes, k) {
                let j = choose|j: int| 0 <= j < v1.routes.len() && (#[trigger] v1.routes[j]).key == k;
                if j < v.routes.len() {
                    assert(v.routes[j].key == k);
                }
            }
        }
        assert forall|i: int, j: int| 0 <= i < j < tail.len() implies key_of(#[trigger] tail[i])
            != key_of(#[trigger] tail[j]) by {
            assert(tail[i] == prefixes[i + 1]);
            assert(tail[j] == prefixes[j + 1]);
        }
        lemma_local_routes(v1, tail);
        let want_tail = Seq::new(tail.len(), |i: int| v1.local_route(tail[i]));
        assert(forall|p: AdvertisedPrefixView| v1.local_route(p) == v.local_route(p));
        assert(v1.routes + want_tail =~= v.routes + want) by {
            assert forall|i: int| 0 <= i < want_tail.len() implies want_tail[i] == want[i + 1] by {
                assert(tail[i] == prefixes[i + 1]);
            }
        }
        lemma_local_events_same(v1, v, tail);
        assert(v1.events + local_events(v1, tail) =~= v.events + local_events(v, prefixes));
    }
}

/// The events of installing local prefixes depend on the node only through
/// its router-id, sequence number and interface.
proof fn lemma_local_events_same(a: NodeView, b: NodeView, prefixes: Seq<AdvertisedPrefixView>)
    requires
        a.router_id == b.router_id,
        a.seqno == b.seqno,
        a.iface_index == b.iface_index,
    ensures
        local_events(a, prefixes) == local_events(b, prefixes),
    decreases prefixes.len(),
{
    if prefixes.len() > 0 {
        lemma_local_events_same(a, b, prefixes.drop_first());
    }
}

/// A Hello from a peer that is not yet known, followed by an Update from
/// that peer for a prefix that no route leads to yet, when the peer has
/// announced its router-id before, queues NeighborUp, RouteUpdated and
/// BestRouteChanged, in this order, and nothing else.
pub proof fn lemma_hello_then_update(
    v: NodeView,
    src: SocketAddr,
    hello: TlvView,
    update: TlvView,
    now: u64,
)
    requires
        keys_distinct(v.neighbors),
        hello is Hello,
        update is Update,
        !has_addr(v.neighbors, src),
        source_of(v.sources, src).router_id is Some,
        !has_key(
            v.routes,
            RouteKeyView {
                ae: update->Update_ae,
                plen: update->Update_plen,
                prefix: update->Update_prefix,
            },
        ),
    ensures
        ({
            let n = Neighbor::fresh(src, v.iface_index).after_hello(
                hello->Hello_seqno,
                hello->Hello_interval,
                now,
            );
            let r = v.learned_route(
                src,
                source_of(v.sources, src).router_id->0,
                update->Update_ae,
                update->Update_plen,
                update->Update_prefix,
                update->Update_seqno,
                update->Update_metric,
            );
            v.after_tlvs(src, seq![hello, update], now).events == v.events + seq![
                EventView::NeighborUp(src, n),
                EventView::RouteUpdated(r.key, r),
                EventView::BestRouteChanged(r.key, r),
            ]
        }),
{
    let tlvs = seq![hello, update];
    let n = Neighbor::fresh(src, v.iface_index).after_hello(
        hello->Hello_seqno,
        hello->Hello_interval,
        now,
    );
    // the Hello
    let e = v.neighbors.push((src, Neighbor::fresh(src, v.iface_index)));
    let at = v.neighbors.len() as int;
    assert(keys_distinct(e)) by {
        assert forall|a: int, b: int| 0 <= a < b < e.len() implies (#[trigger] e[a]).0 != (
        #[trigger] e[b]).0 by {
            if b < at {
                assert(v.neighbors[a].0 != v.neighbors[b].0);
            } else {
                assert(v.neighbors[a].0 != src);
            }
        }
    }
    lemma_slot(e, src, at);
    let neighbors = with_hello(
        v.neighbors,
        src,
        v.iface_index,
        hello->Hello_seqno,
        hello->Hello_interval,
        now,
    );
    assert(neighbors == e.update(at, (src, n)));
    assert(keys_distinct(neighbors)) by {
        assert forall|a: int, b: int| 0 <= a < b < neighbors.len() implies (
        #[trigger] neighbors[a]).0 != (#[trigger] neighbors[b]).0 by {
            assert(e[a].0 != e[b].0);
        }
    }
    lemma_slot(neighbors, src, at);
    let v1 = v.after_tlv(src, hello, now);
    assert(v1.events == v.events.push(EventView::NeighborUp(src, n)));
    assert(v1.sources == v.sources && v1.routes == v.routes && v1.iface_index == v.iface_index);
    // the Update
    let r = v.learned_route(
        src,
        source_of(v.sources, src).router_id->0,
        update->Update_ae,
        update->Update_plen,
        update->Update_prefix,
        update->Update_seqno,
        update->Update_metric,
    );
    lemma_install_new_prefix(v1, r);
    let v2 = v1.after_tlv(src, update, now);
    assert(v2 == v1.after_install(r));
    assert(v2.events == v1.events.push(EventView::RouteUpdated(r.key, r)).push(
        EventView::BestRouteChanged(r.key, r),
    ));
    // the two in turn
    assert(tlvs.drop_first() =~= seq![update]);
    assert(tlvs.drop_first().drop_first() =~= Seq::<TlvView>::empty());
    assert(v2.after_tlvs(src, tlvs.drop_first().drop_first(), now) == v2);
    assert(v1.after_tlvs(src, tlvs.drop_first(), now) == v2);
    assert(v.after_tlvs(src, tlvs, now) == v2);
    assert(v2.events =~= v.events + seq![
        EventView::NeighborUp(src, n),
        EventView::RouteUpdated(r.key, r),
        EventView::BestRouteChanged(r.key, r),
    ]);
}

/// A RouterId, a Hello and an Update in one datagram, from a peer that is
/// not yet known, for a prefix that no route leads to yet, queue NeighborUp,
/// RouteUpdated and BestRouteChanged, in this order, and nothing else. The
/// route is the Update's, with the router-id just announced.
pub proof fn lemma_router_id_hello_update(
    v: NodeView,
    src: SocketAddr,
    router_id: TlvView,
    hello: TlvView,
    update: TlvView,
    now: u64,
)
    requires
        keys_distinct(v.neighbors),
        keys_distinct(v.sources),
        router_id is RouterId,
        hello is Hello,
        update is Update,
        !has_addr(v.neighbors, src),
        !has_key(
            v.routes,
            RouteKeyView {
                ae: update->Update_ae,
                plen: update->Update_plen,
                prefix: update->Update_prefix,
            },
        ),
    ensures
        ({
            let n = Neighbor::fresh(src, v.iface_index).after_hello(
                hello->Hello_seqno,
                hello->Hello_interval,
                now,
            );
            let r = v.learned_route(
                src,
                router_id->RouterId_router_id,
                update->Update_ae,
                update->Update_plen,
                update->Update_prefix,
                update->Update_seqno,
                update->Update_metric,
            );
            v.after_tlvs(src, seq![router_id, hello, update], now).events == v.events + seq![
                EventView::NeighborUp(src, n),
                EventView::RouteUpdated(r.key, r),
                EventView::BestRouteChanged(r.key, r),
            ]
        }),
{
    let tlvs = seq![router_id, hello, update];
    let known = source_of(v.sources, src);
    let info = SourceInfo { router_id: Some(router_id->RouterId_router_id), ..known };
    lemma_with_entry(v.sources, src, info);
    let v0 = v.after_tlv(src, router_id, now);
    assert(v0.sources == with_entry(v.sources, src, info));
    assert(source_of(v0.sources, src) == info);
    assert(v0.neighbors == v.neighbors && v0.routes == v.routes && v0.events == v.events
        && v0.iface_index == v.iface_index);
    lemma_hello_then_update(v0, src, hello, update, now);
    assert(tlvs.drop_first() =~= seq![hello, update]);
    assert(v.after_tlvs(src, tlvs, now) == v0.after_tlvs(src, seq![hello, update], now));
}

} // verus!
