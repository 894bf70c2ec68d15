//! Neighbour tracking: what was heard from each peer, whether it is still
//! reachable, and what the link to it costs.
//!
//! Time is a count of milliseconds on a clock that never runs backwards; the
//! caller reads the clock.

use crate::addr::SocketAddr;
use vstd::prelude::*;

verus! {

/// The Hello interval assumed for a neighbour that has announced none.
pub const DEFAULT_HELLO_INTERVAL_MS: u16 = 4000;

/// What is known of one neighbour.
#[derive(Debug, Clone, Copy, PartialEq, Eq)]
pub struct Neighbor {
    /// The endpoint its packets come from.
    pub addr: SocketAddr,
    /// The local interface on which it is heard.
    pub iface_index: u32,
    /// The sequence number of its last Hello.
    pub last_hello_seqno: Option<u16>,
    /// The Hello interval it announced, in milliseconds.
    pub hello_interval_ms: Option<u16>,
    /// Which Hellos were received; the lowest bit is the latest.
    pub hello_history: u16,
    /// When its last Hello came.
    pub last_hello_rx: Option<u64>,
    /// When its last IHU came.
    pub last_ihu_rx: Option<u64>,
    /// The cost it announced for receiving from us.
    pub rxcost: Option<u16>,
    /// Our cost of sending to it.
    pub txcost: Option<u16>,
}

/// The history after one more Hello: every bit moves up by one, and the
/// lowest is set.
pub open spec fn shift_in(history: u16) -> u16 {
    (history << 1) | 1
}

/// The mask of the lowest `min(window, 16)` bits.
pub open spec fn low_mask(window: u8) -> u16 {
    if window >= 16 {
        0xffff
    } else {
        ((1u16 << window) - 1) as u16
    }
}

impl Neighbor {
    /// A neighbour of which nothing was heard yet.
    pub open spec fn fresh(addr: SocketAddr, iface_index: u32) -> Neighbor {
        Neighbor {
            addr,
            iface_index,
            last_hello_seqno: None,
            hello_interval_ms: None,
            hello_history: 0,
            last_hello_rx: None,
            last_ihu_rx: None,
            rxcost: None,
            txcost: None,
        }
    }

    /// The neighbour after a Hello with `seqno` and `interval_ms` came at `now`.
    pub open spec fn after_hello(self, seqno: u16, interval_ms: u16, now: u64) -> Neighbor {
        Neighbor {
            last_hello_seqno: Some(seqno),
            hello_interval_ms: Some(interval_ms),
            last_hello_rx: Some(now),
            hello_history: shift_in(self.hello_history),
            ..self
        }
    }

    /// The neighbour after an IHU with `rxcost` came at `now`.
    pub open spec fn after_ihu(self, rxcost: u16, now: u64) -> Neighbor {
        Neighbor { rxcost: Some(rxcost), last_ihu_rx: Some(now), ..self }
    }

    /// The neighbour with our sending cost set.
    pub open spec fn with_txcost(self, txcost: u16) -> Neighbor {
        Neighbor { txcost: Some(txcost), ..self }
    }

    /// What the record's fields owe each other: an interval or a sequence
    /// number is known only once a Hello was seen, and a receive cost only
    /// once an IHU was seen.
    pub open spec fn wf(self) -> bool {
        &&& self.hello_interval_ms is Some ==> self.last_hello_rx is Some
        &&& self.last_hello_seqno is Some ==> self.last_hello_rx is Some
        &&& self.rxcost is Some ==> self.last_ihu_rx is Some
    }

    /// The cost of the link: the larger of the two costs where both are
    /// known, the known one where one is, and none otherwise.
    pub open spec fn spec_link_cost(&self) -> Option<u16> {
        match (self.rxcost, self.txcost) {
            (Some(rx), Some(tx)) => Some(if rx >= tx { rx } else { tx }),
            (Some(rx), None) => Some(rx),
            (None, Some(tx)) => Some(tx),
            (None, None) => None,
        }
    }

    /// Whether one of the latest `min(window, 16)` Hellos was received.
    pub open spec fn spec_is_reachable(&self, window: u8) -> bool {
        (self.hello_history & low_mask(window)) != 0
    }

    /// The longest silence, in milliseconds, after which the neighbour is
    /// not yet stale.
    pub open spec fn max_silence(self, multiplier: u32) -> int {
        let base = match self.hello_interval_ms {
            Some(ms) => ms,
            None => DEFAULT_HELLO_INTERVAL_MS,
        };
        base as int * multiplier as int
    }

    /// Whether the last Hello is more than `max_silence` behind `now`. A
    /// neighbour that never sent a Hello is not stale.
    pub open spec fn spec_is_stale(&self, now: u64, multiplier: u32) -> bool {
        match self.last_hello_rx {
            Some(last) => now as int - last as int > self.max_silence(multiplier),
            None => false,
        }
    }

    /// A neighbour of which nothing was heard yet.
    pub fn new(addr: SocketAddr, iface_index: u32) -> (r: Self)
        ensures
            r == Neighbor::fresh(addr, iface_index),
            r.wf(),
    {
        Neighbor {
            addr,
            iface_index,
            last_hello_seqno: None,
            hello_interval_ms: None,
            hello_history: 0,
            last_hello_rx: None,
            last_ihu_rx: None,
            rxcost: None,
            txcost: None,
        }
    }

    /// Records a Hello that came at `now`.
    pub fn note_hello(&mut self, seqno: u16, interval_ms: u16, now: u64)
        ensures
            *final(self) == old(self).after_hello(seqno, interval_ms, now),
            old(self).wf() ==> final(self).wf(),
    {
        self.last_hello_seqno = Some(seqno);
        self.hello_interval_ms = Some(interval_ms);
        self.last_hello_rx = Some(now);
        self.hello_history = (self.hello_history << 1) | 1;
    }

    /// Records an IHU that came at `now`. The interval it carries is not used.
    pub fn note_ihu(&mut self, rxcost: u16, _interval_ms: u16, now: u64)
        ensures
            *final(self) == old(self).after_ihu(rxcost, now),
            old(self).wf() ==> final(self).wf(),
    {
        self.rxcost = Some(rxcost);
        self.last_ihu_rx = Some(now);
    }

    /// Sets our cost of sending to this neighbour.
    pub fn set_txcost(&mut self, txcost: u16)
        ensures
            *final(self) == old(self).with_txcost(txcost),
            old(self).wf() ==> final(self).wf(),
    {
        self.txcost = Some(txcost);
    }

    /// The cost of the link.
    #[verifier::when_used_as_spec(spec_link_cost)]
    pub fn link_cost(&self) -> (r: Option<u16>)
        ensures
            r == self.spec_link_cost(),
    {
        match (self.rxcost, self.txcost) {
            (Some(rx), Some(tx)) => Some(if rx >= tx { rx } else { tx }),
            (Some(rx), None) => Some(rx),
            (None, Some(tx)) => Some(tx),
            (None, None) => None,
        }
    }

    /// Whether one of the latest `min(window, 16)` Hellos was received.
    #[verifier::when_used_as_spec(spec_is_reachable)]
    pub fn is_reachable(&self, window: u8) -> (r: bool)
        ensures
            r == self.spec_is_reachable(window),
    {
        let mask: u16 = if window >= 16 {
            0xffff
        } else {
            assert((1u16 << window) >= 1) by (bit_vector)
                requires
                    window < 16,
            ;
            (1u16 << window) - 1
        };
        (self.hello_history & mask) != 0
    }

    /// Whether the neighbour has been silent for more than its Hello
    /// interval times `multiplier`.
    #[verifier::when_used_as_spec(spec_is_stale)]
    pub fn is_stale(&self, now: u64, multiplier: u32) -> (r: bool)
        ensures
            r == self.spec_is_stale(now, multiplier),
    {
        match self.last_hello_rx {
            None => false,
            Some(last) => {
                let base: u64 = match self.hello_interval_ms {
                    Some(ms) => ms as u64,
                    None => DEFAULT_HELLO_INTERVAL_MS as u64,
                };
                let times: u64 = multiplier as u64;
                assert(base * times <= 0xffff * 0xffff_ffff) by (nonlinear_arith)
                    requires
                        base <= 0xffff,
                        times <= 0xffff_ffff,
                ;
                now > last && now - last > base * times
            },
        }
    }
}

/// A Hello sets the lowest bit of the history, so a neighbour that has just
/// sent one is reachable in every window of at least one Hello.
pub proof fn lemma_reachable_after_hello(n: Neighbor, seqno: u16, interval_ms: u16, now: u64, window: u8)
    requires
        window >= 1,
    ensures
        n.after_hello(seqno, interval_ms, now).spec_is_reachable(window),
{
    let h = n.hello_history;
    if window >= 16 {
        assert((((h << 1) | 1) & 0xffffu16) != 0) by (bit_vector);
    } else {
        assert((((h << 1) | 1) & (((1u16 << window) - 1) as u16)) != 0) by (bit_vector)
            requires
                1 <= window < 16,
        ;
    }
}

/// After three Hellos in a row the three lowest bits of the history are
/// set, and the neighbour is reachable in a window of three.
pub proof fn lemma_three_hellos(n: Neighbor, s1: u16, s2: u16, s3: u16, interval_ms: u16, now: u64)
    ensures
        ({
            let m = n.after_hello(s1, interval_ms, now).after_hello(s2, interval_ms, now).after_hello(
                s3,
                interval_ms,
                now,
            );
            m.hello_history & 0b111 == 0b111 && m.spec_is_reachable(3)
        }),
{
    let h = n.hello_history;
    assert((((((((h << 1) | 1) << 1) | 1) << 1) | 1) & 0b111u16) == 0b111u16) by (bit_vector);
    assert((((1u16 << 3u8) - 1) as u16) == 0b111u16) by (bit_vector);
}

/// A neighbour whose last Hello is more than its interval times the
/// multiplier behind is stale, and one whose last Hello is no further
/// behind than that is not.
pub proof fn lemma_stale_after_gap(
    n: Neighbor,
    seqno: u16,
    interval_ms: u16,
    heard: u64,
    now: u64,
    multiplier: u32,
)
    ensures
        n.after_hello(seqno, interval_ms, heard).spec_is_stale(now, multiplier) <==> now - heard
            > interval_ms * multiplier,
{
}

/// A receive cost and a send cost that are both known give their maximum.
pub proof fn lemma_link_cost_both(n: Neighbor, rx: u16, tx: u16)
    requires
        n.rxcost == Some(rx),
        n.txcost == Some(tx),
    ensures
        n.spec_link_cost() matches Some(c) && c >= rx && c >= tx && (c == rx || c == tx),
{
}

/// A cost that is known alone is the cost of the link; with neither known
/// the link has no cost.
pub proof fn lemma_link_cost_one(n: Neighbor)
    ensures
        n.rxcost is Some && n.txcost is None ==> n.spec_link_cost() == n.rxcost,
        n.rxcost is None && n.txcost is Some ==> n.spec_link_cost() == n.txcost,
        n.rxcost is None && n.txcost is None ==> n.spec_link_cost() is None,
{
}

/// No two entries are kept under the same endpoint.
pub open spec fn keys_distinct<V>(s: Seq<(SocketAddr, V)>) -> bool {
    forall|i: int, j: int| 0 <= i < j < s.len() ==> (#[trigger] s[i]).0 != (#[trigger] s[j]).0
}

/// Whether an entry is kept under `addr`.
pub open spec fn has_addr<V>(s: Seq<(SocketAddr, V)>, addr: SocketAddr) -> bool {
    exists|i: int| 0 <= i < s.len() && (#[trigger] s[i]).0 == addr
}

/// The place of an entry that is kept under `addr`.
pub open spec fn slot_of<V>(s: Seq<(SocketAddr, V)>, addr: SocketAddr) -> int {
    choose|i: int| 0 <= i < s.len() && (#[trigger] s[i]).0 == addr
}

/// The value kept under `addr`, if there is one.
pub open spec fn lookup<V>(s: Seq<(SocketAddr, V)>, addr: SocketAddr) -> Option<V> {
    if has_addr(s, addr) {
        Some(s[slot_of(s, addr)].1)
    } else {
        None
    }
}

/// The entries with `value` kept under `addr`: in the place of what was
/// kept there, or at the end where nothing was.
pub open spec fn with_entry<V>(s: Seq<(SocketAddr, V)>, addr: SocketAddr, value: V) -> Seq<
    (SocketAddr, V),
> {
    if has_addr(s, addr) {
        s.update(slot_of(s, addr), (addr, value))
    } else {
        s.push((addr, value))
    }
}

/// The entries with one for `addr` among them: the entries as they are
/// where one is kept under `addr`, and with a fresh neighbour at the end
/// where none is.
pub open spec fn ensured(s: Seq<(SocketAddr, Neighbor)>, addr: SocketAddr, iface_index: u32) -> Seq<
    (SocketAddr, Neighbor),
> {
    if has_addr(s, addr) {
        s
    } else {
        s.push((addr, Neighbor::fresh(addr, iface_index)))
    }
}

/// The entries after a Hello from `src`.
pub open spec fn with_hello(
    s: Seq<(SocketAddr, Neighbor)>,
    src: SocketAddr,
    iface_index: u32,
    seqno: u16,
    interval_ms: u16,
    now: u64,
) -> Seq<(SocketAddr, Neighbor)> {
    let e = ensured(s, src, iface_index);
    let i = slot_of(e, src);
    e.update(i, (src, e[i].1.after_hello(seqno, interval_ms, now)))
}

/// The entries after an IHU from `src`.
pub open spec fn with_ihu(
    s: Seq<(SocketAddr, Neighbor)>,
    src: SocketAddr,
    iface_index: u32,
    rxcost: u16,
    now: u64,
) -> Seq<(SocketAddr, Neighbor)> {
    let e = ensured(s, src, iface_index);
    let i = slot_of(e, src);
    e.update(i, (src, e[i].1.after_ihu(rxcost, now)))
}

/// The entries with our sending cost to `addr` set.
pub open spec fn with_cost(
    s: Seq<(SocketAddr, Neighbor)>,
    addr: SocketAddr,
    iface_index: u32,
    txcost: u16,
) -> Seq<(SocketAddr, Neighbor)> {
    let e = ensured(s, addr, iface_index);
    let i = slot_of(e, addr);
    e.update(i, (addr, e[i].1.with_txcost(txcost)))
}

/// The test for an entry whose neighbour is stale at `now`.
pub open spec fn stale_at(now: u64, multiplier: u32) -> spec_fn((SocketAddr, Neighbor)) -> bool {
    |e: (SocketAddr, Neighbor)| e.1.spec_is_stale(now, multiplier)
}

/// The test for an entry whose neighbour is not stale at `now`.
pub open spec fn live_at(now: u64, multiplier: u32) -> spec_fn((SocketAddr, Neighbor)) -> bool {
    |e: (SocketAddr, Neighbor)| !e.1.spec_is_stale(now, multiplier)
}

/// The endpoints that the entries are kept under, in order.
pub open spec fn addrs_of(s: Seq<(SocketAddr, Neighbor)>) -> Seq<SocketAddr> {
    Seq::new(s.len(), |i: int| s[i].0)
}

/// Every record is kept under the endpoint it names, and its fields owe
/// each other what [`Neighbor::wf`] says.
pub open spec fn records_sound(s: Seq<(SocketAddr, Neighbor)>) -> bool {
    forall|i: int| 0 <= i < s.len() ==> (#[trigger] s[i]).1.addr == s[i].0 && s[i].1.wf()
}

/// Among distinct keys, the place where `addr` is found is its place.
pub proof fn lemma_slot<V>(s: Seq<(SocketAddr, V)>, addr: SocketAddr, i: int)
    requires
        keys_distinct(s),
        0 <= i < s.len(),
        s[i].0 == addr,
    ensures
        has_addr(s, addr),
        slot_of(s, addr) == i,
        lookup(s, addr) == Some(s[i].1),
{
    let c = slot_of(s, addr);
    if c < i {
        assert(s[c].0 != s[i].0);
    } else if i < c {
        assert(s[i].0 != s[c].0);
    }
}

/// Keeping a value under an endpoint keeps the keys distinct, and the value
/// is then what is found there.
pub proof fn lemma_with_entry<V>(s: Seq<(SocketAddr, V)>, addr: SocketAddr, value: V)
    requires
        keys_distinct(s),
    ensures
        keys_distinct(with_entry(s, addr, value)),
        lookup(with_entry(s, addr, value), addr) == Some(value),
{
    let t = with_entry(s, addr, value);
    if has_addr(s, addr) {
        let i = slot_of(s, addr);
        assert forall|a: int, b: int| 0 <= a < b < t.len() implies (#[trigger] t[a]).0 != (
        #[trigger] t[b]).0 by {
            assert(s[a].0 != s[b].0);
        }
        lemma_slot(t, addr, i);
    } else {
        assert forall|a: int, b: int| 0 <= a < b < t.len() implies (#[trigger] t[a]).0 != (
        #[trigger] t[b]).0 by {
            if b < s.len() {
                assert(s[a].0 != s[b].0);
            } else {
                assert(s[a].0 != addr);
            }
        }
        lemma_slot(t, addr, s.len() as int);
    }
}

/// The table of all known neighbours, one for each endpoint, in the order
/// in which the endpoints were first heard.
#[derive(Debug)]
pub struct NeighborTable {
    slots: Vec<(SocketAddr, Neighbor)>,
}

impl View for NeighborTable {
    type V = Seq<(SocketAddr, Neighbor)>;

    closed spec fn view(&self) -> Seq<(SocketAddr, Neighbor)> {
        self.slots@
    }
}

impl Default for NeighborTable {
    fn default() -> (r: Self)
        ensures
            r@ == Seq::<(SocketAddr, Neighbor)>::empty(),
            r.wf(),
    {
        NeighborTable::new()
    }
}

impl NeighborTable {
    /// The invariant of the table: one entry for each endpoint.
    pub open spec fn wf(&self) -> bool {
        keys_distinct(self@)
    }

    /// An empty table.
    pub fn new() -> (r: Self)
        ensures
            r@ == Seq::<(SocketAddr, Neighbor)>::empty(),
            r.wf(),
    {
        NeighborTable { slots: Vec::new() }
    }

    /// Whether the table holds no neighbour.
    pub fn is_empty(&self) -> (r: bool)
        ensures
            r == (self@.len() == 0),
    {
        self.slots.len() == 0
    }

    /// Every neighbour, in table order.
    pub fn all(&self) -> (r: Vec<&Neighbor>)
        ensures
            r@.len() == self@.len(),
            forall|i: int| 0 <= i < r@.len() ==> *(#[trigger] r@[i]) == self@[i].1,
    {
        let mut out: Vec<&Neighbor> = Vec::new();
        let mut i: usize = 0;
        while i < self.slots.len()
            invariant
                i <= self.slots@.len(),
                self@ == self.slots@,
                out@.len() == i,
                forall|k: int| 0 <= k < i ==> *(#[trigger] out@[k]) == self@[k].1,
            decreases self.slots@.len() - i,
        {
            out.push(&self.slots[i].1);
            i = i + 1;
        }
        out
    }

    /// The place of the entry kept under `addr`.
    fn find(&self, addr: &SocketAddr) -> (r: Option<usize>)
        ensures
            match r {
                Some(i) => i < self@.len() && self@[i as int].0 == *addr,
                None => !has_addr(self@, *addr),
            },
    {
        let mut i: usize = 0;
        while i < self.slots.len()
            invariant
                i <= self.slots@.len(),
                self@ == self.slots@,
                forall|k: int| 0 <= k < i ==> (#[trigger] self@[k]).0 != *addr,
            decreases self.slots@.len() - i,
        {
            if self.slots[i].0.same(addr) {
                return Some(i);
            }
            i = i + 1;
        }
        None
    }

    /// The neighbour kept under `addr`.
    pub fn get(&self, addr: &SocketAddr) -> (r: Option<&Neighbor>)
        requires
            self.wf(),
        ensures
            match r {
                Some(n) => lookup(self@, *addr) == Some(*n),
                None => lookup(self@, *addr) is None,
            },
    {
        match self.find(addr) {
            Some(i) => {
                proof {
                    lemma_slot(self@, *addr, i as int);
                }
                Some(&self.slots[i].1)
            },
            None => None,
        }
    }

    /// The neighbour kept under `addr`, to be changed in place. The table
    /// afterwards holds what the caller leaves there.
    pub fn get_mut(&mut self, addr: &SocketAddr) -> (r: Option<&mut Neighbor>)
        requires
            old(self).wf(),
        ensures
            match r {
                Some(n) => {
                    &&& has_addr(old(self)@, *addr)
                    &&& *n == old(self)@[slot_of(old(self)@, *addr)].1
                    &&& final(self)@ == old(self)@.update(
                        slot_of(old(self)@, *addr),
                        (*addr, *final(n)),
                    )
                },
                None => !has_addr(old(self)@, *addr) && final(self)@ == old(self)@,
            },
            final(self).wf(),
    {
        match self.find(addr) {
            Some(i) => {
                proof {
                    lemma_slot(self@, *addr, i as int);
                }
                let slot = &mut self.slots[i];
                Some(&mut slot.1)
            },
            None => None,
        }
    }

    /// The place of the entry kept under `addr`, after adding a fresh
    /// neighbour there where none was kept.
    fn ensure_neighbor(&mut self, addr: SocketAddr, iface_index: u32) -> (i: usize)
        requires
            old(self).wf(),
        ensures
            final(self).wf(),
            final(self)@ == ensured(old(self)@, addr, iface_index),
            i < final(self)@.len(),
            final(self)@[i as int].0 == addr,
            i == slot_of(final(self)@, addr),
            records_sound(old(self)@) ==> records_sound(final(self)@),
    {
        match self.find(&addr) {
            Some(i) => {
                proof {
                    lemma_slot(self@, addr, i as int);
                }
                i
            },
            None => {
                let i = self.slots.len();
                self.slots.push((addr, Neighbor::new(addr, iface_index)));
                proof {
                    assert forall|a: int, b: int| 0 <= a < b < self@.len() implies (
                    #[trigger] self@[a]).0 != (#[trigger] self@[b]).0 by {
                        if b < i {
                            assert(old(self)@[a].0 != old(self)@[b].0);
                        } else {
                            assert(old(self)@[a].0 != addr);
                        }
                    }
                    lemma_slot(self@, addr, i as int);
                }
                i
            },
        }
    }

    /// Puts `n` in the place `i`, under the endpoint that is kept there.
    fn put(&mut self, i: usize, addr: SocketAddr, n: Neighbor)
        requires
            old(self).wf(),
            i < old(self)@.len(),
            old(self)@[i as int].0 == addr,
        ensures
            final(self).wf(),
            final(self)@ == old(self)@.update(i as int, (addr, n)),
            records_sound(old(self)@) && n.addr == addr && n.wf() ==> records_sound(final(self)@),
    {
        self.slots[i] = (addr, n);
        proof {
            assert forall|a: int, b: int| 0 <= a < b < self@.len() implies (#[trigger] self@[a]).0
                != (#[trigger] self@[b]).0 by {
                assert(old(self)@[a].0 != old(self)@[b].0);
            }
        }
    }

    /// Records a Hello from `src`: a neighbour that is not yet known is
    /// added first, with the interface `iface_index`.
    pub fn update_on_hello(
        &mut self,
        src: SocketAddr,
        iface_index: u32,
        seqno: u16,
        interval_ms: u16,
        now: u64,
    )
        requires
            old(self).wf(),
        ensures
            final(self).wf(),
            final(self)@ == with_hello(old(self)@, src, iface_index, seqno, interval_ms, now),
            records_sound(old(self)@) ==> records_sound(final(self)@),
    {
        let i = self.ensure_neighbor(src, iface_index);
        let mut n = self.slots[i].1;
        n.note_hello(seqno, interval_ms, now);
        self.put(i, src, n);
    }

    /// Records an IHU from `src`: a neighbour that is not yet known is
    /// added first, with the interface `iface_index`.
    pub fn update_on_ihu(
        &mut self,
        src: SocketAddr,
        iface_index: u32,
        rxcost: u16,
        interval_ms: u16,
        now: u64,
    )
        requires
            old(self).wf(),
        ensures
            final(self).wf(),
            final(self)@ == with_ihu(old(self)@, src, iface_index, rxcost, now),
            records_sound(old(self)@) ==> records_sound(final(self)@),
    {
        let i = self.ensure_neighbor(src, iface_index);
        let mut n = self.slots[i].1;
        n.note_ihu(rxcost, interval_ms, now);
        self.put(i, src, n);
    }

    /// Sets our cost of sending to `addr`: a neighbour that is not yet
    /// known is added first, with the interface `iface_index`.
    pub fn set_txcost(&mut self, addr: SocketAddr, iface_index: u32, txcost: u16)
        requires
            old(self).wf(),
        ensures
            final(self).wf(),
            final(self)@ == with_cost(old(self)@, addr, iface_index, txcost),
            records_sound(old(self)@) ==> records_sound(final(self)@),
    {
        let i = self.ensure_neighbor(addr, iface_index);
        let mut n = self.slots[i].1;
        n.set_txcost(txcost);
        self.put(i, addr, n);
    }

    /// Removes every neighbour that is stale at `now`, and returns how many
    /// there were. The others stay in their order.
    pub fn prune_stale(&mut self, now: u64, multiplier: u32) -> (removed: usize)
        requires
            old(self).wf(),
        ensures
            final(self).wf(),
            final(self)@ == old(self)@.filter(live_at(now, multiplier)),
            removed == old(self)@.len() - final(self)@.len(),
            removed == old(self)@.filter(stale_at(now, multiplier)).len(),
            records_sound(old(self)@) ==> records_sound(final(self)@),
    {
        let gone = self.prune_stale_with_addrs(now, multiplier);
        gone.len()
    }

    /// Removes every neighbour that is stale at `now`, and returns the
    /// endpoints they were kept under, in table order. The others stay in
    /// their order.
    pub fn prune_stale_with_addrs(&mut self, now: u64, multiplier: u32) -> (removed: Vec<
        SocketAddr,
    >)
        requires
            old(self).wf(),
        ensures
            final(self).wf(),
            final(self)@ == old(self)@.filter(live_at(now, multiplier)),
            removed@ == addrs_of(old(self)@.filter(stale_at(now, multiplier))),
            removed@.len() == old(self)@.len() - final(self)@.len(),
            records_sound(old(self)@) ==> records_sound(final(self)@),
    {
        let ghost s = self@;
        let ghost live = live_at(now, multiplier);
        let ghost stale = stale_at(now, multiplier);
        let mut kept: Vec<(SocketAddr, Neighbor)> = Vec::new();
        let mut removed: Vec<SocketAddr> = Vec::new();
        let ghost mut src: Seq<int> = Seq::empty();
        proof {
            reveal(Seq::filter);
            assert(s.take(0) =~= Seq::<(SocketAddr, Neighbor)>::empty());
            assert(kept@ =~= s.take(0).filter(live));
            assert(removed@ =~= addrs_of(s.take(0).filter(stale)));
        }
        let mut i: usize = 0;
        while i < self.slots.len()
            invariant
                i <= s.len(),
                s == self.slots@,
                live == live_at(now, multiplier),
                stale == stale_at(now, multiplier),
                kept@ == s.take(i as int).filter(live),
                removed@ == addrs_of(s.take(i as int).filter(stale)),
                kept@.len() + removed@.len() == i,
                src.len() == kept@.len(),
                forall|k: int| 0 <= k < src.len() ==> 0 <= #[trigger] src[k] < i,
                forall|k: int| 0 <= k < src.len() ==> kept@[k] == s[#[trigger] src[k]],
                forall|a: int, b: int| 0 <= a < b < src.len() ==> src[a] < src[b],
            decreases s.len() - i,
        {
            let ghost kept_before = kept@;
            let ghost removed_before = removed@;
            let entry = self.slots[i];
            let is_stale = entry.1.is_stale(now, multiplier);
            if is_stale {
                removed.push(entry.0);
            } else {
                kept.push(entry);
                proof {
                    src = src.push(i as int);
                }
            }
            proof {
                reveal(Seq::filter);
                let next = s.take(i + 1);
                assert(next.drop_last() =~= s.take(i as int));
                assert(next.last() == s[i as int]);
                assert(live(s[i as int]) == !is_stale);
                assert(stale(s[i as int]) == is_stale);
                assert(kept@ =~= next.filter(live));
                if is_stale {
                    assert(next.filter(stale) =~= s.take(i as int).filter(stale).push(s[i as int]));
                }
                assert(removed@ =~= addrs_of(next.filter(stale)));
            }
            i = i + 1;
        }
        proof {
            assert(s.take(i as int) =~= s);
            assert forall|a: int, b: int| 0 <= a < b < kept@.len() implies (#[trigger] kept@[a]).0
                != (#[trigger] kept@[b]).0 by {
                assert(kept@[a] == s[src[a]]);
                assert(kept@[b] == s[src[b]]);
                assert(src[a] < src[b]);
                assert(s[src[a]].0 != s[src[b]].0);
            }
            if records_sound(s) {
                assert forall|k: int| 0 <= k < kept@.len() implies (#[trigger] kept@[k]).1.addr
                    == kept@[k].0 && kept@[k].1.wf() by {
                    assert(kept@[k] == s[src[k]]);
                }
            }
        }
        self.slots = kept;
        removed
    }
}

} // verus!
