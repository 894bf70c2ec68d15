//! What a node reports to its owner: neighbours that come and go, and
//! routes that change.

use crate::addr::SocketAddr;
use crate::neighbor::Neighbor;
use crate::routing::{Route, RouteKey, RouteKeyView, RouteView};
use vstd::prelude::*;

verus! {

/// A change in what a node knows.
#[derive(Debug, Clone)]
pub enum Event {
    /// A neighbour was heard for the first time; the record as it stood then.
    NeighborUp(SocketAddr, Neighbor),
    /// A neighbour was removed as stale.
    NeighborDown(SocketAddr),
    /// A route to this prefix was added or improved; the best route to it now.
    RouteUpdated(RouteKey, Route),
    /// The best route to this prefix is another than before.
    BestRouteChanged(RouteKey, Route),
}

/// The mathematical value of an [`Event`].
pub enum EventView {
    NeighborUp(SocketAddr, Neighbor),
    NeighborDown(SocketAddr),
    RouteUpdated(RouteKeyView, RouteView),
    BestRouteChanged(RouteKeyView, RouteView),
}

impl View for Event {
    type V = EventView;

    open spec fn view(&self) -> EventView {
        match *self {
            Event::NeighborUp(a, n) => EventView::NeighborUp(a, n),
            Event::NeighborDown(a) => EventView::NeighborDown(a),
            Event::RouteUpdated(k, r) => EventView::RouteUpdated(k@, r@),
            Event::BestRouteChanged(k, r) => EventView::BestRouteChanged(k@, r@),
        }
    }
}

/// The values of a list of events.
pub open spec fn event_views(events: Seq<Event>) -> Seq<EventView> {
    Seq::new(events.len(), |i: int| events[i]@)
}

} // verus!
