use babel_rs::addr::{IpAddr, SocketAddr};
use babel_rs::neighbor::{Neighbor, NeighborTable};

fn addr() -> SocketAddr {
    SocketAddr::new(IpAddr::V4([192, 0, 2, 10]), 6696)
}

fn other_addr() -> SocketAddr {
    SocketAddr::new(IpAddr::V4([192, 0, 2, 11]), 6696)
}

const START: u64 = 1_000_000;

#[test]
fn hello_updates_neighbor() {
    let mut n = Neighbor::new(addr(), 1);
    let now = START;

    n.note_hello(5, 4000, now);
    assert_eq!(n.last_hello_seqno, Some(5));
    assert_eq!(n.hello_interval_ms, Some(4000));
    assert!(n.last_hello_rx.is_some());
    assert_eq!(n.hello_history & 1, 1);
}

#[test]
fn hello_history_shifts_correctly() {
    let mut n = Neighbor::new(addr(), 1);
    let now = START;

    n.note_hello(1, 4000, now);
    n.note_hello(2, 4000, now);
    n.note_hello(3, 4000, now);

    assert_eq!(n.hello_history & 0b111, 0b111);
    assert!(n.is_reachable(3));
}

#[test]
fn stale_neighbor_detection() {
    let mut n = Neighbor::new(addr(), 1);
    let now = START;

    n.note_hello(1, 1000, now);

    let later = now + 5000;
    assert!(n.is_stale(later, 3)); // 3 * 1000ms = 3s cutoff
}

#[test]
fn link_cost_uses_max() {
    let mut n = Neighbor::new(addr(), 1);
    n.rxcost = Some(100);
    n.txcost = Some(150);
    assert_eq!(n.link_cost(), Some(150));
}

#[test]
fn table_updates_neighbors() {
    let mut tbl = NeighborTable::new();
    let a = addr();
    let now = START;

    tbl.update_on_hello(a, 2, 42, 3000, now);
    tbl.update_on_ihu(a, 2, 200, 3000, now);

    let n = tbl.get(&a).unwrap();
    assert_eq!(n.last_hello_seqno, Some(42));
    assert_eq!(n.rxcost, Some(200));
    assert_eq!(n.iface_index, 2);
}

#[test]
fn prune_removes_stale_neighbors() {
    let mut tbl = NeighborTable::new();
    let a = addr();
    let now = START;

    tbl.update_on_hello(a, 1, 1, 1000, now);
    let later = now + 5000;

    let removed = tbl.prune_stale(later, 3);
    assert_eq!(removed, 1);
    assert!(tbl.get(&a).is_none());
}

#[test]
fn new_neighbor_is_blank() {
    let n = Neighbor::new(addr(), 7);
    assert_eq!(n.addr, addr());
    assert_eq!(n.iface_index, 7);
    assert_eq!(n.last_hello_seqno, None);
    assert_eq!(n.hello_interval_ms, None);
    assert_eq!(n.hello_history, 0);
    assert_eq!(n.last_hello_rx, None);
    assert_eq!(n.last_ihu_rx, None);
    assert_eq!(n.rxcost, None);
    assert_eq!(n.txcost, None);
    assert_eq!(n.link_cost(), None);
    assert!(!n.is_reachable(16));
    assert!(!n.is_stale(u64::MAX, 0));
}

#[test]
fn hello_history_exact() {
    let mut n = Neighbor::new(addr(), 1);
    n.hello_history = 0b1000_0000_0000_0101;
    n.note_hello(9, 10, START);
    assert_eq!(n.hello_history, 0b0000_0000_0000_1011);
    assert_eq!(n.last_hello_rx, Some(START));
}

#[test]
fn ihu_sets_cost_and_time_only() {
    let mut n = Neighbor::new(addr(), 1);
    n.note_ihu(300, 777, START + 5);
    assert_eq!(n.rxcost, Some(300));
    assert_eq!(n.last_ihu_rx, Some(START + 5));
    assert_eq!(n.hello_interval_ms, None);
    assert_eq!(n.hello_history, 0);
    n.set_txcost(9);
    assert_eq!(n.txcost, Some(9));
    assert_eq!(n.link_cost(), Some(300));
}

#[test]
fn link_cost_of_one_known_cost() {
    let mut n = Neighbor::new(addr(), 1);
    n.rxcost = Some(100);
    assert_eq!(n.link_cost(), Some(100));
    n.rxcost = None;
    n.txcost = Some(7);
    assert_eq!(n.link_cost(), Some(7));
    n.rxcost = Some(7);
    assert_eq!(n.link_cost(), Some(7));
    n.rxcost = Some(200);
    assert_eq!(n.link_cost(), Some(200));
}

#[test]
fn reachability_window() {
    let mut n = Neighbor::new(addr(), 1);
    n.hello_history = 0b1000;
    assert!(!n.is_reachable(0));
    assert!(!n.is_reachable(3));
    assert!(n.is_reachable(4));
    n.hello_history = 0x8000;
    assert!(!n.is_reachable(15));
    assert!(n.is_reachable(16));
    assert!(n.is_reachable(200));
}

#[test]
fn staleness_is_strict() {
    let mut n = Neighbor::new(addr(), 1);
    n.note_hello(1, 1000, START);
    assert!(!n.is_stale(START + 3000, 3));
    assert!(n.is_stale(START + 3001, 3));
    assert!(!n.is_stale(START - 1, 3));
    assert!(n.is_stale(START + 1, 0));
    // without an announced interval, 4000 ms is assumed
    n.hello_interval_ms = None;
    assert!(!n.is_stale(START + 12000, 3));
    assert!(n.is_stale(START + 12001, 3));
    // a neighbour that never sent a Hello is never stale
    let mut quiet = Neighbor::new(addr(), 1);
    quiet.note_ihu(1, 1, START);
    assert!(!quiet.is_stale(START + 1_000_000, 1));
}

#[test]
fn table_keeps_one_entry_per_endpoint() {
    let mut tbl = NeighborTable::new();
    assert!(tbl.is_empty());
    tbl.update_on_ihu(addr(), 4, 10, 0, START);
    tbl.update_on_hello(other_addr(), 5, 1, 100, START);
    tbl.update_on_hello(addr(), 9, 2, 100, START + 1);
    tbl.set_txcost(addr(), 9, 20);
    let all = tbl.all();
    assert_eq!(all.len(), 2);
    assert_eq!(all[0].addr, addr());
    // the interface of the first sighting stays
    assert_eq!(all[0].iface_index, 4);
    assert_eq!(all[0].link_cost(), Some(20));
    assert_eq!(all[0].last_hello_seqno, Some(2));
    assert_eq!(all[1].addr, other_addr());
    assert!(tbl.get(&SocketAddr::new(IpAddr::V4([192, 0, 2, 10]), 1)).is_none());
}

#[test]
fn set_txcost_adds_a_neighbor() {
    let mut tbl = NeighborTable::new();
    tbl.set_txcost(addr(), 3, 55);
    let n = tbl.get(&addr()).unwrap();
    assert_eq!(n.txcost, Some(55));
    assert_eq!(n.iface_index, 3);
    assert_eq!(n.last_hello_rx, None);
}

#[test]
fn prune_after_two_hellos_and_silence() {
    let mut tbl = NeighborTable::new();
    let a = addr();
    tbl.update_on_hello(a, 1, 1, 1000, START);
    tbl.update_on_hello(a, 1, 2, 1000, START + 1000);
    tbl.update_on_hello(other_addr(), 1, 1, 4000, START + 1000);
    assert_eq!(tbl.prune_stale_with_addrs(START + 4000, 3), Vec::<SocketAddr>::new());
    let removed = tbl.prune_stale_with_addrs(START + 6000, 3);
    assert_eq!(removed, vec![a]);
    assert!(tbl.get(&a).is_none());
    assert!(tbl.get(&other_addr()).is_some());
    assert_eq!(tbl.all().len(), 1);
}

#[test]
fn prune_spares_who_never_said_hello() {
    let mut tbl = NeighborTable::new();
    tbl.update_on_ihu(addr(), 1, 5, 5, START);
    assert_eq!(tbl.prune_stale(START + 10_000_000, 1), 0);
    assert!(tbl.get(&addr()).is_some());
}

#[test]
fn get_mut_changes_the_record_in_place() {
    let mut tbl = NeighborTable::new();
    tbl.update_on_hello(addr(), 1, 1, 1000, START);
    tbl.update_on_hello(other_addr(), 1, 1, 1000, START);
    assert!(tbl.get_mut(&SocketAddr::new(IpAddr::V4([1, 1, 1, 1]), 1)).is_none());
    let n = tbl.get_mut(&other_addr()).unwrap();
    assert_eq!(n.last_hello_seqno, Some(1));
    n.set_txcost(77);
    assert_eq!(tbl.get(&other_addr()).unwrap().txcost, Some(77));
    assert_eq!(tbl.get(&addr()).unwrap().txcost, None);
    assert_eq!(tbl.all().len(), 2);
}
