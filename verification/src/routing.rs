//! The routing table and route selection.
//!
//! Routes are kept in the order in which their paths were first seen. Among
//! the routes to one prefix the best has the lowest metric and, among those,
//! the highest sequence number.

use crate::addr::{octets8_eq, opt_ip_same, IpAddr};
use vstd::prelude::*;

verus! {

/// A prefix: address encoding, length in bits, and the prefix octets.
#[derive(Debug, PartialEq, Eq, Hash)]
pub struct RouteKey {
    pub ae: u8,
    pub plen: u8,
    /// The prefix octets as they stood in the TLV.
    pub prefix: Vec<u8>,
}

/// The mathematical value of a [`RouteKey`].
pub struct RouteKeyView {
    pub ae: u8,
    pub plen: u8,
    pub prefix: Seq<u8>,
}

/// One route learned from an Update.
#[derive(Debug)]
pub struct Route {
    pub key: RouteKey,
    pub metric: u16,
    pub seqno: u16,
    pub router_id: [u8; 8],
    pub next_hop: Option<IpAddr>,
    pub iface_index: u32,
}

/// The mathematical value of a [`Route`].
pub struct RouteView {
    pub key: RouteKeyView,
    pub metric: u16,
    pub seqno: u16,
    pub router_id: [u8; 8],
    pub next_hop: Option<IpAddr>,
    pub iface_index: u32,
}

impl View for RouteKey {
    type V = RouteKeyView;

    open spec fn view(&self) -> RouteKeyView {
        RouteKeyView { ae: self.ae, plen: self.plen, prefix: self.prefix@ }
    }
}

impl View for Route {
    type V = RouteView;

    open spec fn view(&self) -> RouteView {
        RouteView {
            key: self.key@,
            metric: self.metric,
            seqno: self.seqno,
            router_id: self.router_id,
            next_hop: self.next_hop,
            iface_index: self.iface_index,
        }
    }
}

/// A copy of the bytes of `v`.
pub fn copy_bytes(v: &Vec<u8>) -> (r: Vec<u8>)
    ensures
        r@ == v@,
{
    let mut out: Vec<u8> = Vec::new();
    let mut i: usize = 0;
    while i < v.len()
        invariant
            i <= v@.len(),
            out@ == v@.take(i as int),
        decreases v@.len() - i,
    {
        out.push(v[i]);
        i = i + 1;
        assert(out@ =~= v@.take(i as int));
    }
    assert(v@.take(i as int) =~= v@);
    out
}

impl Clone for RouteKey {
    fn clone(&self) -> (r: Self)
        ensures
            r@ == self@,
    {
        RouteKey { ae: self.ae, plen: self.plen, prefix: copy_bytes(&self.prefix) }
    }
}

impl Clone for Route {
    fn clone(&self) -> (r: Self)
        ensures
            r@ == self@,
    {
        Route {
            key: self.key.clone(),
            metric: self.metric,
            seqno: self.seqno,
            router_id: self.router_id,
            next_hop: self.next_hop,
            iface_index: self.iface_index,
        }
    }
}

impl RouteKey {
    /// Whether `self` and `other` name the same prefix.
    pub fn same(&self, other: &RouteKey) -> (r: bool)
        ensures
            r == (self@ == other@),
    {
        if self.ae != other.ae || self.plen != other.plen || self.prefix.len()
            != other.prefix.len() {
            return false;
        }
        let mut i: usize = 0;
        while i < self.prefix.len()
            invariant
                i <= self.prefix@.len(),
                self.prefix@.len() == other.prefix@.len(),
                forall|j: int| 0 <= j < i ==> self.prefix@[j] == other.prefix@[j],
            decreases self.prefix@.len() - i,
        {
            if self.prefix[i] != other.prefix[i] {
                return false;
            }
            i = i + 1;
        }
        assert(self.prefix@ =~= other.prefix@);
        true
    }
}

impl RouteView {
    /// Whether two routes are the same path: the same prefix, announced by
    /// the same router, through the same next hop and interface.
    pub open spec fn same_path(self, other: RouteView) -> bool {
        &&& self.key == other.key
        &&& self.router_id == other.router_id
        &&& self.next_hop == other.next_hop
        &&& self.iface_index == other.iface_index
    }

    /// Whether `self` is strictly better than `other`: a lower metric, or the
    /// same metric with a higher sequence number.
    pub open spec fn better_than(self, other: RouteView) -> bool {
        self.metric < other.metric || (self.metric == other.metric && self.seqno > other.seqno)
    }
}

impl Route {
    /// Whether `self` and `other` are the same path.
    pub fn same_path(&self, other: &Route) -> (r: bool)
        ensures
            r == self@.same_path(other@),
    {
        self.iface_index == other.iface_index && octets8_eq(&self.router_id, &other.router_id)
            && opt_ip_same(&self.next_hop, &other.next_hop) && self.key.same(&other.key)
    }
}

/// The values of a list of routes.
pub open spec fn route_views(routes: Seq<Route>) -> Seq<RouteView> {
    Seq::new(routes.len(), |i: int| routes[i]@)
}

/// The values of a list of borrowed routes.
pub open spec fn route_ref_views(routes: Seq<&Route>) -> Seq<RouteView> {
    Seq::new(routes.len(), |i: int| (*routes[i])@)
}

/// The test for a route to the prefix `key`.
pub open spec fn to_key(key: RouteKeyView) -> spec_fn(RouteView) -> bool {
    |r: RouteView| r.key == key
}

/// The test for a route that the router `router_id` did not announce.
pub open spec fn not_from(router_id: [u8; 8]) -> spec_fn(RouteView) -> bool {
    |r: RouteView| r.router_id != router_id
}

/// No two routes of the list are the same path.
pub open spec fn paths_distinct(s: Seq<RouteView>) -> bool {
    forall|i: int, j: int| 0 <= i < j < s.len() ==> !(#[trigger] s[i]).same_path(#[trigger] s[j])
}

/// Whether some route of the list is the same path as `r`.
pub open spec fn has_path(s: Seq<RouteView>, r: RouteView) -> bool {
    exists|i: int| 0 <= i < s.len() && (#[trigger] s[i]).same_path(r)
}

/// The place of a route of the list that is the same path as `r`.
pub open spec fn path_index(s: Seq<RouteView>, r: RouteView) -> int {
    choose|i: int| 0 <= i < s.len() && (#[trigger] s[i]).same_path(r)
}

/// Whether installing `r` changes the list: its path is new, or it is
/// strictly better than the route that holds its path.
pub open spec fn install_changes(s: Seq<RouteView>, r: RouteView) -> bool {
    !has_path(s, r) || r.better_than(s[path_index(s, r)])
}

/// The list after installing `r`: appended where its path is new, put in
/// the place of the route that holds its path where it is strictly better,
/// and otherwise the list as it was.
pub open spec fn installed(s: Seq<RouteView>, r: RouteView) -> Seq<RouteView> {
    if !has_path(s, r) {
        s.push(r)
    } else if r.better_than(s[path_index(s, r)]) {
        s.update(path_index(s, r), r)
    } else {
        s
    }
}

/// Whether the route at `i` is the best to `key`: it leads there, no route
/// there before it is strictly better, and it is strictly better than every
/// route there after it.
pub open spec fn is_best(s: Seq<RouteView>, key: RouteKeyView, i: int) -> bool {
    &&& 0 <= i < s.len()
    &&& s[i].key == key
    &&& forall|j: int|
        0 <= j < s.len() && (#[trigger] s[j]).key == key ==> {
            &&& j < i ==> !s[j].better_than(s[i])
            &&& j > i ==> s[i].better_than(s[j])
        }
}

/// Whether some route of the list leads to `key`.
pub open spec fn has_key(s: Seq<RouteView>, key: RouteKeyView) -> bool {
    exists|i: int| 0 <= i < s.len() && (#[trigger] s[i]).key == key
}

/// The best route to `key`, if any route leads there.
pub open spec fn best_of(s: Seq<RouteView>, key: RouteKeyView) -> Option<RouteView> {
    if exists|i: int| is_best(s, key, i) {
        Some(s[choose|i: int| is_best(s, key, i)])
    } else {
        None
    }
}

/// At most one place holds the best route to a prefix.
pub proof fn lemma_best_unique(s: Seq<RouteView>, key: RouteKeyView, i: int, j: int)
    requires
        is_best(s, key, i),
        is_best(s, key, j),
    ensures
        i == j,
{
    if i < j {
        assert(s[i].key == key);
        assert(s[i].better_than(s[j]));
        assert(!s[i].better_than(s[j]));
    } else if j < i {
        assert(s[j].key == key);
        assert(s[j].better_than(s[i]));
        assert(!s[j].better_than(s[i]));
    }
}

/// The route at the best place is the best route.
pub proof fn lemma_best_of_at(s: Seq<RouteView>, key: RouteKeyView, i: int)
    requires
        is_best(s, key, i),
    ensures
        best_of(s, key) == Some(s[i]),
{
    let c = choose|c: int| is_best(s, key, c);
    lemma_best_unique(s, key, i, c);
}

/// Where no route leads to a prefix, there is no best route to it.
pub proof fn lemma_best_of_none(s: Seq<RouteView>, key: RouteKeyView)
    requires
        !has_key(s, key),
    ensures
        best_of(s, key) is None,
{
    if exists|i: int| is_best(s, key, i) {
        let c = choose|c: int| is_best(s, key, c);
        assert(s[c].key == key);
    }
}

/// No route to a prefix is strictly better than the best route to it.
pub proof fn lemma_best_is_least(s: Seq<RouteView>, key: RouteKeyView, j: int)
    requires
        0 <= j < s.len(),
        s[j].key == key,
    ensures
        best_of(s, key) matches Some(b) && b.key == key && !s[j].better_than(b),
{
    lemma_best_exists(s, key, s.len() as int, j);
    let c = choose|c: int| is_best(s, key, c);
    assert(is_best(s, key, c));
    if j > c {
        assert(s[c].better_than(s[j]));
    }
}

/// Whether the route at `b` is the best to `key` among the first `n` routes.
pub open spec fn is_best_among(s: Seq<RouteView>, key: RouteKeyView, b: int, n: int) -> bool {
    &&& 0 <= b < n <= s.len()
    &&& s[b].key == key
    &&& forall|j: int|
        0 <= j < n && (#[trigger] s[j]).key == key ==> {
            &&& j < b ==> !s[j].better_than(s[b])
            &&& j > b ==> s[b].better_than(s[j])
        }
}

/// Where a route among the first `n` leads to a prefix, one of them is the
/// best among them.
pub proof fn lemma_best_exists(s: Seq<RouteView>, key: RouteKeyView, n: int, j: int)
    requires
        0 <= j < n <= s.len(),
        s[j].key == key,
    ensures
        exists|b: int| is_best_among(s, key, b, n),
        n == s.len() ==> exists|b: int| is_best(s, key, b),
    decreases n,
{
    let last = n - 1;
    if exists|k: int| 0 <= k < last && (#[trigger] s[k]).key == key {
        let k = choose|k: int| 0 <= k < last && (#[trigger] s[k]).key == key;
        lemma_best_exists(s, key, last, k);
        let b = choose|b: int| is_best_among(s, key, b, last);
        if s[last].key == key && !s[b].better_than(s[last]) {
            assert(is_best_among(s, key, last, n));
        } else {
            assert(is_best_among(s, key, b, n));
        }
    } else {
        assert(j == last);
        assert(is_best_among(s, key, last, n));
    }
    if n == s.len() {
        let b = choose|b: int| is_best_among(s, key, b, n);
        assert(is_best(s, key, b));
    }
}

/// Of two routes to one prefix, the best is the strictly better one: the
/// one with the lower metric, or with the higher sequence number where the
/// metrics are the same.
pub proof fn lemma_best_of_two(a: RouteView, b: RouteView)
    requires
        a.key == b.key,
    ensures
        a.better_than(b) ==> best_of(seq![a, b], a.key) == Some(a),
        b.better_than(a) ==> best_of(seq![a, b], a.key) == Some(b),
{
    let s = seq![a, b];
    if a.better_than(b) {
        assert(is_best(s, a.key, 0));
        lemma_best_of_at(s, a.key, 0);
    }
    if b.better_than(a) {
        assert(is_best(s, a.key, 1));
        lemma_best_of_at(s, a.key, 1);
    }
}

/// An in-memory routing table.
#[derive(Debug)]
pub struct RoutingTable {
    routes: Vec<Route>,
}

impl View for RoutingTable {
    type V = Seq<RouteView>;

    closed spec fn view(&self) -> Seq<RouteView> {
        route_views(self.routes@)
    }
}

impl Default for RoutingTable {
    fn default() -> (r: Self)
        ensures
            r@ == Seq::<RouteView>::empty(),
            r.wf(),
    {
        RoutingTable::new()
    }
}

impl RoutingTable {
    /// The invariant of the table: no two entries are the same path.
    pub open spec fn wf(&self) -> bool {
        paths_distinct(self@)
    }

    /// An empty table.
    pub fn new() -> (r: Self)
        ensures
            r@ == Seq::<RouteView>::empty(),
            r.wf(),
    {
        let r = RoutingTable { routes: Vec::new() };
        assert(r@ =~= Seq::<RouteView>::empty());
        r
    }

    /// Every route, in the order in which the paths were first seen.
    pub fn all(&self) -> (r: &[Route])
        ensures
            route_views(r@) == self@,
    {
        self.routes.as_slice()
    }

    /// The routes to `key`, in table order.
    pub fn routes_for(&self, key: &RouteKey) -> (r: Vec<&Route>)
        ensures
            route_ref_views(r@) == self@.filter(to_key(key@)),
    {
        let mut out: Vec<&Route> = Vec::new();
        let mut i: usize = 0;
        proof {
            reveal(Seq::filter);
            assert(self@.take(0) =~= Seq::<RouteView>::empty());
            assert(route_ref_views(out@) =~= self@.take(0).filter(to_key(key@)));
        }
        while i < self.routes.len()
            invariant
                i <= self.routes@.len(),
                self@ == route_views(self.routes@),
                route_ref_views(out@) == self@.take(i as int).filter(to_key(key@)),
            decreases self.routes@.len() - i,
        {
            let ghost before = route_ref_views(out@);
            let r = &self.routes[i];
            let hit = r.key.same(key);
            if hit {
                out.push(r);
            }
            proof {
                reveal(Seq::filter);
                let next = self@.take(i + 1);
                assert(next.drop_last() =~= self@.take(i as int));
                assert(next.last() == self.routes@[i as int]@);
                if hit {
                    assert(route_ref_views(out@) =~= before.push(r@));
                }
                assert(route_ref_views(out@) =~= next.filter(to_key(key@)));
            }
            i = i + 1;
        }
        assert(self@.take(i as int) =~= self@);
        out
    }

    /// The best route to `key`: the one with the lowest metric and, among
    /// those, the highest sequence number; the later one where two are equal
    /// in both. `None` where no route leads there.
    pub fn best_route(&self, key: &RouteKey) -> (r: Option<&Route>)
        ensures
            match r {
                Some(route) => best_of(self@, key@) == Some(route@),
                None => best_of(self@, key@) is None,
            },
            r is Some <==> has_key(self@, key@),
            r matches Some(route) ==> exists|i: int| is_best(self@, key@, i) && self@[i] == route@,
    {
        let mut best: Option<usize> = None;
        let mut i: usize = 0;
        while i < self.routes.len()
            invariant
                i <= self.routes@.len(),
                self@ == route_views(self.routes@),
                match best {
                    Some(b) => is_best_among(self@, key@, b as int, i as int),
                    None => forall|j: int| 0 <= j < i ==> (#[trigger] self@[j]).key != key@,
                },
            decreases self.routes@.len() - i,
        {
            let cand = &self.routes[i];
            if cand.key.same(key) {
                match best {
                    None => {
                        best = Some(i);
                    },
                    Some(b) => {
                        let cur = &self.routes[b];
                        let cur_better = cur.metric < cand.metric || (cur.metric == cand.metric
                            && cur.seqno > cand.seqno);
                        if !cur_better {
                            best = Some(i);
                        }
                    },
                }
            }
            i = i + 1;
        }
        match best {
            Some(b) => {
                proof {
                    assert(is_best(self@, key@, b as int));
                    lemma_best_of_at(self@, key@, b as int);
                }
                Some(&self.routes[b])
            },
            None => {
                proof {
                    lemma_best_of_none(self@, key@);
                }
                None
            },
        }
    }

    /// Installs a route. One whose path is new is appended. One whose path
    /// the table holds replaces the entry where it is strictly better, and
    /// is dropped where it is not. Returns whether the table changed.
    pub fn install_or_update(&mut self, new_route: Route) -> (changed: bool)
        requires
            old(self).wf(),
        ensures
            final(self).wf(),
            final(self)@ == installed(old(self)@, new_route@),
            changed == install_changes(old(self)@, new_route@),
    {
        let ghost s = self@;
        let ghost r = new_route@;
        let mut i: usize = 0;
        while i < self.routes.len()
            invariant
                i <= self.routes@.len(),
                self@ == s,
                s == old(self)@,
                r == new_route@,
                paths_distinct(s),
                s == route_views(self.routes@),
                forall|j: int| 0 <= j < i ==> !(#[trigger] s[j]).same_path(r),
            decreases self.routes@.len() - i,
        {
            assert(s[i as int] == self.routes@[i as int]@);
            if self.routes[i].same_path(&new_route) {
                proof {
                    assert(s[i as int].same_path(r));
                    let c = path_index(s, r);
                    assert(0 <= c < s.len() && s[c].same_path(r));
                    if c != i {
                        if c < i {
                            assert(!s[c].same_path(r));
                        } else {
                            assert(!s[i as int].same_path(s[c]));
                        }
                    }
                    assert(has_path(s, r) && path_index(s, r) == i);
                    assert(s[i as int].metric == self.routes@[i as int].metric);
                }
                let old_route = &self.routes[i];
                let better = new_route.metric < old_route.metric || (new_route.metric
                    == old_route.metric && new_route.seqno > old_route.seqno);
                if better {
                    self.routes[i] = new_route;
                    proof {
                        assert(self@ =~= s.update(i as int, r));
                        assert forall|a: int, b: int| 0 <= a < b < self@.len() implies !(
                        #[trigger] self@[a]).same_path(#[trigger] self@[b]) by {
                            assert(!s[a].same_path(s[b]));
                            if a == i {
                                assert(!s[i as int].same_path(s[b]));
                            } else if b == i {
                                assert(!s[a].same_path(s[i as int]));
                            }
                        }
                    }
                    return true;
                } else {
                    return false;
                }
            }
            i = i + 1;
        }
        self.routes.push(new_route);
        proof {
            assert(self@ =~= s.push(r));
            assert forall|a: int, b: int| 0 <= a < b < self@.len() implies !(
            #[trigger] self@[a]).same_path(#[trigger] self@[b]) by {
                if b < s.len() {
                    assert(!s[a].same_path(s[b]));
                } else {
                    assert(!s[a].same_path(r));
                }
            }
        }
        true
    }

    /// Drops every route that the router `router_id` announced, and returns
    /// how many there were. The others stay in their order.
    pub fn remove_by_router(&mut self, router_id: [u8; 8]) -> (removed: usize)
        requires
            old(self).wf(),
        ensures
            final(self).wf(),
            final(self)@ == old(self)@.filter(not_from(router_id)),
            removed == old(self)@.len() - final(self)@.len(),
    {
        let ghost s = self@;
        let mut kept: Vec<Route> = Vec::new();
        let mut rest: Vec<Route> = Vec::new();
        std::mem::swap(&mut rest, &mut self.routes);
        let total = rest.len();
        let ghost mut src: Seq<int> = Seq::empty();
        proof {
            reveal(Seq::filter);
            assert(s.take(0) =~= Seq::<RouteView>::empty());
            assert(route_views(kept@) =~= s.take(0).filter(not_from(router_id)));
        }
        let mut i: usize = 0;
        for route in it: rest
            invariant
                i == it.index(),
                total == it.seq().len(),
                s == route_views(it.seq()),
                paths_distinct(s),
                route_views(kept@) == s.take(i as int).filter(not_from(router_id)),
                kept@.len() <= i,
                src.len() == kept@.len(),
                forall|k: int| 0 <= k < src.len() ==> 0 <= #[trigger] src[k] < i,
                forall|k: int| 0 <= k < src.len() ==> kept@[k]@ == s[#[trigger] src[k]],
                forall|a: int, b: int| 0 <= a < b < src.len() ==> src[a] < src[b],
        {
            let ghost before = route_views(kept@);
            let keep = !octets8_eq(&route.router_id, &router_id);
            proof {
                assert(route@ == s[i as int]);
            }
            if keep {
                kept.push(route);
                proof {
                    src = src.push(i as int);
                }
            }
            proof {
                reveal(Seq::filter);
                let next = s.take(i + 1);
                assert(next.drop_last() =~= s.take(i as int));
                assert(next.last() == s[i as int]);
                if keep {
                    assert(route_views(kept@) =~= before.push(s[i as int]));
                }
                assert(route_views(kept@) =~= next.filter(not_from(router_id)));
            }
            i = i + 1;
        }
        proof {
            assert(s.take(i as int) =~= s);
            let out = route_views(kept@);
            assert forall|a: int, b: int| 0 <= a < b < out.len() implies !(
            #[trigger] out[a]).same_path(#[trigger] out[b]) by {
                assert(out[a] == s[src[a]]);
                assert(out[b] == s[src[b]]);
                assert(src[a] < src[b]);
            }
        }
        let n = kept.len();
        self.routes = kept;
        total - n
    }
}

} // verus!
