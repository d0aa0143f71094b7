//! Source routes: the explicit hop list carried in every packet,
//! together with an index pointing at the current hop.

use vstd::prelude::*;

use crate::types::NodeId;

verus! {

/// Mathematical value of a [`Route`].
pub struct RouteModel {
    pub hops: Seq<NodeId>,
    pub hop_index: int,
}

impl RouteModel {
    /// First hop of the route: the node the packet started from.
    pub open spec fn source(self) -> Option<NodeId> {
        if self.hops.len() > 0 {
            Some(self.hops[0])
        } else {
            None
        }
    }

    /// Last hop of the route: the node the packet is addressed to.
    pub open spec fn destination(self) -> Option<NodeId> {
        if self.hops.len() > 0 {
            Some(self.hops[self.hops.len() - 1])
        } else {
            None
        }
    }

    /// Hop the index currently points at, if it is in range.
    pub open spec fn current_hop(self) -> Option<NodeId> {
        if 0 <= self.hop_index < self.hops.len() {
            Some(self.hops[self.hop_index])
        } else {
            None
        }
    }

    /// The return route: hops in reverse order, index reset to the start.
    pub open spec fn reversed(self) -> RouteModel {
        RouteModel { hops: self.hops.reverse(), hop_index: 0 }
    }
}

/// An ordered list of node identifiers (the source route) plus an index
/// pointing at the "current hop".  For a route stored in the routing
/// table the index points at the first downstream neighbor.
#[derive(PartialEq, Eq, Debug)]
pub struct Route {
    pub hops: Vec<NodeId>,
    pub hop_index: usize,
}

impl View for Route {
    type V = RouteModel;

    open spec fn view(&self) -> RouteModel {
        RouteModel { hops: self.hops@, hop_index: self.hop_index as int }
    }
}

impl Clone for Route {
    fn clone(&self) -> (r: Route)
        ensures
            r@ == self@,
    {
        let mut hops: Vec<NodeId> = Vec::new();
        let mut i: usize = 0;
        while i < self.hops.len()
            invariant
                i <= self.hops.len(),
                hops@ == self.hops@.subrange(0, i as int),
            decreases self.hops.len() - i,
        {
            hops.push(self.hops[i]);
            i = i + 1;
        }
        proof {
            assert(hops@ =~= self.hops@);
        }
        Route { hops, hop_index: self.hop_index }
    }
}

impl Route {
    /// An empty route: no hops, index at the start.
    pub fn empty_route() -> (r: Route)
        ensures
            r@.hops.len() == 0,
            r@.hop_index == 0,
    {
        Route { hops: Vec::new(), hop_index: 0 }
    }

    /// A route over the given hops whose index points at the second
    /// element, the first hop a packet would be forwarded to.
    pub fn with_first_hop(hops: Vec<NodeId>) -> (r: Route)
        ensures
            r@.hops == hops@,
            r@.hop_index == 1,
    {
        Route { hops, hop_index: 1 }
    }

    /// First hop of the route.
    pub fn source(&self) -> (r: Option<NodeId>)
        ensures
            r == self@.source(),
    {
        if self.hops.len() > 0 {
            Some(self.hops[0])
        } else {
            None
        }
    }

    /// Last hop of the route.
    pub fn destination(&self) -> (r: Option<NodeId>)
        ensures
            r == self@.destination(),
    {
        if self.hops.len() > 0 {
            Some(self.hops[self.hops.len() - 1])
        } else {
            None
        }
    }

    /// Hop the index currently points at, if any.
    pub fn current_hop(&self) -> (r: Option<NodeId>)
        ensures
            r == self@.current_hop(),
    {
        if self.hop_index < self.hops.len() {
            Some(self.hops[self.hop_index])
        } else {
            None
        }
    }

    /// The return route: hops reversed, index reset to the start.
    pub fn get_reversed(&self) -> (r: Route)
        ensures
            r@ == self@.reversed(),
    {
        let n = self.hops.len();
        let mut hops: Vec<NodeId> = Vec::new();
        let mut i: usize = 0;
        while i < n
            invariant
                n == self.hops.len(),
                i <= n,
                hops@.len() == i as int,
                forall|j: int| 0 <= j < i as int ==> hops@[j] == self.hops@[n - 1 - j],
            decreases n - i,
        {
            hops.push(self.hops[n - 1 - i]);
            i = i + 1;
        }
        proof {
            assert(hops@ =~= self.hops@.reverse());
        }
        Route { hops, hop_index: 0 }
    }

    /// Advance the index by one hop.
    pub fn increase_hop_index(&mut self)
        requires
            old(self)@.hop_index < usize::MAX,
        ensures
            final(self)@.hops == old(self)@.hops,
            final(self)@.hop_index == old(self)@.hop_index + 1,
    {
        self.hop_index = self.hop_index + 1;
    }

    /// Extend the route by one hop at its end.
    pub fn append_hop(&mut self, hop: NodeId)
        ensures
            final(self)@.hops == old(self)@.hops.push(hop),
            final(self)@.hop_index == old(self)@.hop_index,
    {
        self.hops.push(hop);
    }
}

} // verus!
