//! The relay map: the peers that the node forwards for while they are not in its routing
//! table.

use crate::connection_index::list_views;
use crate::name_map::NameMap;
use crate::types::{Endpoint, NameType};
use vstd::prelude::*;

verus! {

/// The peers that a node relays for, each with the endpoints it is known at. The map
/// never holds the node itself.
pub struct RelayMap {
    own_name: NameType,
    peers: NameMap<Vec<Endpoint>>,
}

impl View for RelayMap {
    type V = Map<Seq<u8>, Seq<Endpoint>>;

    closed spec fn view(&self) -> Map<Seq<u8>, Seq<Endpoint>> {
        list_views(self.peers@)
    }
}

impl RelayMap {
    /// The name of the node that the map belongs to.
    pub closed spec fn our_name(&self) -> Seq<u8> {
        self.own_name@
    }

    /// The map is in order and does not hold the node itself.
    pub closed spec fn wf(&self) -> bool {
        &&& self.peers.wf()
        &&& !self.peers@.contains_key(self.own_name@)
    }

    /// The empty map of the node `own_name`.
    pub fn new(own_name: &NameType) -> (map: RelayMap)
        ensures
            map.wf(),
            map.our_name() == own_name@,
            map@ == Map::<Seq<u8>, Seq<Endpoint>>::empty(),
    {
        let map = RelayMap { own_name: own_name.clone(), peers: NameMap::new() };
        proof {
            assert(map@ =~= Map::<Seq<u8>, Seq<Endpoint>>::empty());
        }
        map
    }

    /// Tells whether the node relays for the peer `name`.
    pub fn contains_relay(&self, name: &NameType) -> (r: bool)
        requires
            self.wf(),
        ensures
            r == self@.contains_key(name@),
    {
        self.peers.contains_key(name)
    }

    /// The endpoints at which the relayed peer `name` is known.
    pub fn get_endpoints(&self, name: &NameType) -> (r: Option<Vec<Endpoint>>)
        requires
            self.wf(),
        ensures
            match r {
                Some(endpoints) => self@.contains_key(name@) && endpoints@ == self@[name@],
                None => !self@.contains_key(name@),
            },
    {
        match self.peers.get(name) {
            Some(held) => {
                let copy = held.clone();
                proof {
                    assert(copy@ =~= held@);
                }
                Some(copy)
            },
            None => None,
        }
    }

    /// Starts to relay for the peer `name`, known at `endpoints`, unless it is the node
    /// itself or is relayed for already; tells whether it did.
    pub fn add_client(&mut self, name: NameType, endpoints: Vec<Endpoint>) -> (added: bool)
        requires
            old(self).wf(),
        ensures
            final(self).wf(),
            final(self).our_name() == old(self).our_name(),
            added == (name@ != old(self).our_name() && !old(self)@.contains_key(name@)),
            final(self)@ == if added {
                old(self)@.insert(name@, endpoints@)
            } else {
                old(self)@
            },
    {
        if name.same_as(&self.own_name) || self.peers.contains_key(&name) {
            return false;
        }
        self.peers.insert(name, endpoints);
        proof {
            assert(self@ =~= old(self)@.insert(name@, endpoints@));
        }
        true
    }

    /// Stops to relay for the peer `name`, and tells whether the node did relay for it.
    pub fn drop_client(&mut self, name: &NameType) -> (dropped: bool)
        requires
            old(self).wf(),
        ensures
            final(self).wf(),
            final(self).our_name() == old(self).our_name(),
            dropped == old(self)@.contains_key(name@),
            final(self)@ == old(self)@.remove(name@),
    {
        let taken = self.peers.remove(name);
        proof {
            assert(self@ =~= old(self)@.remove(name@));
        }
        taken.is_some()
    }
}

} // verus!
