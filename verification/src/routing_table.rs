//! The routing table: the peers that the node has admitted to its neighbourhood.

use crate::connection_index::list_views;
use crate::name_map::NameMap;
use crate::types::{Endpoint, NameType};
use vstd::prelude::*;

verus! {

/// The number of peers that a routing table holds at most.
pub const ROUTING_TABLE_CAPACITY: usize = 64;

/// The peers that a node has admitted, each with the endpoints it is known at.
///
/// The table is bounded, never holds the node itself, and changes only when a peer is
/// added or dropped.
pub struct RoutingTable {
    own_name: NameType,
    peers: NameMap<Vec<Endpoint>>,
}

impl View for RoutingTable {
    type V = Map<Seq<u8>, Seq<Endpoint>>;

    closed spec fn view(&self) -> Map<Seq<u8>, Seq<Endpoint>> {
        list_views(self.peers@)
    }
}

impl RoutingTable {
    /// The name of the node that the table belongs to.
    pub closed spec fn our_name(&self) -> Seq<u8> {
        self.own_name@
    }

    /// The table is in order and within its bounds.
    pub closed spec fn wf(&self) -> bool {
        &&& self.peers.wf()
        &&& self.peers@.dom().finite()
        &&& self.peers@.len() <= ROUTING_TABLE_CAPACITY
        &&& !self.peers@.contains_key(self.own_name@)
    }

    /// The table of a well-formed value is bounded and does not hold the node itself.
    pub proof fn lemma_bounded(&self)
        requires
            self.wf(),
        ensures
            self@.dom().finite(),
            self@.len() <= ROUTING_TABLE_CAPACITY,
            !self@.contains_key(self.our_name()),
    {
        assert(self@.dom() =~= self.peers@.dom());
    }

    /// The table would take the peer `name`: it is not the node itself, it is not in the
    /// table yet, and the table is not full.
    pub open spec fn admits(&self, name: Seq<u8>) -> bool {
        &&& name != self.our_name()
        &&& !self@.contains_key(name)
        &&& self@.len() < ROUTING_TABLE_CAPACITY
    }

    /// The empty table of the node `own_name`.
    pub fn new(own_name: &NameType) -> (table: RoutingTable)
        ensures
            table.wf(),
            table.our_name() == own_name@,
            table@ == Map::<Seq<u8>, Seq<Endpoint>>::empty(),
    {
        let table = RoutingTable { own_name: own_name.clone(), peers: NameMap::new() };
        proof {
            assert(table@ =~= Map::<Seq<u8>, Seq<Endpoint>>::empty());
        }
        table
    }

    /// The number of peers in the table.
    pub fn len(&self) -> (r: usize)
        requires
            self.wf(),
        ensures
            r == self@.len(),
    {
        proof {
            self.peers.lemma_len();
            assert(self@.dom() =~= self.peers@.dom());
        }
        self.peers.len()
    }

    /// Tells whether the peer `name` is in the table.
    pub fn has_node(&self, name: &NameType) -> (r: bool)
        requires
            self.wf(),
        ensures
            r == self@.contains_key(name@),
    {
        self.peers.contains_key(name)
    }

    /// Adds the peer `name`, known at `endpoints`, where the table admits it, and tells
    /// whether it did.
    pub fn add_node(&mut self, name: NameType, endpoints: Vec<Endpoint>) -> (admitted: bool)
        requires
            old(self).wf(),
        ensures
            final(self).wf(),
            final(self).our_name() == old(self).our_name(),
            admitted == old(self).admits(name@),
            final(self)@ == if admitted {
                old(self)@.insert(name@, endpoints@)
            } else {
                old(self)@
            },
    {
        proof {
            self.peers.lemma_len();
            assert(self@.dom() =~= self.peers@.dom());
        }
        if name.same_as(&self.own_name) || self.peers.contains_key(&name) || self.peers.len()
            >= ROUTING_TABLE_CAPACITY {
            return false;
        }
        self.peers.insert(name, endpoints);
        proof {
            assert(self@ =~= old(self)@.insert(name@, endpoints@));
        }
        true
    }

    /// Drops the peer `name` from the table, and tells whether it was there.
    pub fn drop_node(&mut self, name: &NameType) -> (dropped: bool)
        requires
            old(self).wf(),
        ensures
            final(self).wf(),
            final(self).our_name() == old(self).our_name(),
            dropped == old(self)@.contains_key(name@),
            final(self)@ == old(self)@.remove(name@),
    {
        let taken = self.peers.remove(name);
        proof {
            assert(self@ =~= old(self)@.remove(name@));
            if old(self).peers@.contains_key(name@) {
                assert(old(self).peers@.remove(name@).len() < old(self).peers@.len());
            }
        }
        taken.is_some()
    }
}

} // verus!
