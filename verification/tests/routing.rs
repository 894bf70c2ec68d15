use babel_rs::addr::IpAddr;
use babel_rs::routing::{Route, RouteKey, RoutingTable};

fn key() -> RouteKey {
    RouteKey { ae: 1, plen: 24, prefix: vec![192, 0, 2] }
}

fn route(metric: u16, seqno: u16, router: u8, hop: u8) -> Route {
    Route {
        key: key(),
        metric,
        seqno,
        router_id: [router; 8],
        next_hop: Some(IpAddr::V4([10, 0, 0, hop])),
        iface_index: 1,
    }
}

fn facts(r: &Route) -> (u16, u16, [u8; 8], Option<IpAddr>) {
    (r.metric, r.seqno, r.router_id, r.next_hop)
}

#[test]
fn best_route_prefers_lower_metric_then_higher_seqno() {
    let mut t = RoutingTable::new();
    assert!(t.best_route(&key()).is_none());
    assert!(t.install_or_update(route(200, 1, 1, 1)));
    assert!(t.install_or_update(route(100, 1, 2, 2)));
    assert_eq!(facts(t.best_route(&key()).unwrap()), facts(&route(100, 1, 2, 2)));
    // a third with metric 100 but a higher seqno becomes the best
    assert!(t.install_or_update(route(100, 5, 3, 3)));
    assert_eq!(facts(t.best_route(&key()).unwrap()), facts(&route(100, 5, 3, 3)));
    assert_eq!(t.all().len(), 3);
}

#[test]
fn equal_routes_the_later_wins() {
    let mut t = RoutingTable::new();
    t.install_or_update(route(100, 1, 1, 1));
    t.install_or_update(route(100, 1, 2, 2));
    assert_eq!(facts(t.best_route(&key()).unwrap()), facts(&route(100, 1, 2, 2)));
}

#[test]
fn install_replaces_only_what_is_strictly_better() {
    let mut t = RoutingTable::new();
    assert!(t.install_or_update(route(100, 5, 1, 1)));
    // the same path, equal: dropped
    assert!(!t.install_or_update(route(100, 5, 1, 1)));
    // the same path, worse metric: dropped
    assert!(!t.install_or_update(route(101, 9, 1, 1)));
    // the same path, same metric, lower seqno: dropped
    assert!(!t.install_or_update(route(100, 4, 1, 1)));
    assert_eq!(t.all().len(), 1);
    assert_eq!(facts(&t.all()[0]), facts(&route(100, 5, 1, 1)));
    // the same path, same metric, higher seqno: replaced
    assert!(t.install_or_update(route(100, 6, 1, 1)));
    assert_eq!(facts(&t.all()[0]), facts(&route(100, 6, 1, 1)));
    // the same path, lower metric: replaced, whatever the seqno
    assert!(t.install_or_update(route(99, 0, 1, 1)));
    assert_eq!(t.all().len(), 1);
    assert_eq!(facts(&t.all()[0]), facts(&route(99, 0, 1, 1)));
}

#[test]
fn paths_differ_by_any_part_of_the_tuple() {
    let mut t = RoutingTable::new();
    assert!(t.install_or_update(route(100, 1, 1, 1)));
    assert!(t.install_or_update(route(500, 1, 2, 1)));
    assert!(t.install_or_update(route(500, 1, 1, 2)));
    let mut other_iface = route(500, 1, 1, 1);
    other_iface.iface_index = 2;
    assert!(t.install_or_update(other_iface));
    let mut other_key = route(500, 1, 1, 1);
    other_key.key = RouteKey { ae: 1, plen: 24, prefix: vec![192, 0, 3] };
    assert!(t.install_or_update(other_key));
    let mut no_hop = route(500, 1, 1, 1);
    no_hop.next_hop = None;
    assert!(t.install_or_update(no_hop));
    assert_eq!(t.all().len(), 6);
    assert_eq!(t.routes_for(&key()).len(), 5);
}

#[test]
fn routes_for_keeps_table_order() {
    let mut t = RoutingTable::new();
    let other = RouteKey { ae: 2, plen: 24, prefix: vec![192, 0, 2] };
    t.install_or_update(route(3, 1, 1, 1));
    t.install_or_update(Route { key: other.clone(), ..route(1, 1, 1, 1) });
    t.install_or_update(route(2, 1, 2, 1));
    let metrics: Vec<u16> = t.routes_for(&key()).iter().map(|r| r.metric).collect();
    assert_eq!(metrics, vec![3, 2]);
    let metrics: Vec<u16> = t.routes_for(&other).iter().map(|r| r.metric).collect();
    assert_eq!(metrics, vec![1]);
    assert_eq!(t.best_route(&other).unwrap().metric, 1);
    let unknown = RouteKey { ae: 1, plen: 23, prefix: vec![192, 0, 2] };
    assert!(t.routes_for(&unknown).is_empty());
    assert!(t.best_route(&unknown).is_none());
}

#[test]
fn remove_by_router_counts_and_keeps_order() {
    let mut t = RoutingTable::new();
    t.install_or_update(route(1, 1, 7, 1));
    t.install_or_update(route(2, 1, 8, 1));
    t.install_or_update(route(3, 1, 7, 2));
    t.install_or_update(route(4, 1, 9, 1));
    assert_eq!(t.remove_by_router([7; 8]), 2);
    let metrics: Vec<u16> = t.all().iter().map(|r| r.metric).collect();
    assert_eq!(metrics, vec![2, 4]);
    assert_eq!(t.remove_by_router([7; 8]), 0);
    assert_eq!(t.best_route(&key()).unwrap().metric, 2);
}

#[test]
fn keys_and_routes_compare_by_content() {
    assert!(key().same(&key()));
    assert!(!key().same(&RouteKey { ae: 1, plen: 24, prefix: vec![192, 0] }));
    assert!(!key().same(&RouteKey { ae: 1, plen: 25, prefix: vec![192, 0, 2] }));
    assert!(route(1, 2, 3, 4).same_path(&route(9, 9, 3, 4)));
    assert!(!route(1, 2, 3, 4).same_path(&route(1, 2, 3, 5)));
    let copy = route(1, 2, 3, 4).clone();
    assert_eq!(facts(&copy), facts(&route(1, 2, 3, 4)));
    assert_eq!(copy.key, key());
    assert_eq!(key().clone(), key());
}
